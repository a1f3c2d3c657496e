use vstd::prelude::*;
use vstd::hash_map::StringHashMap;
use std::time::Instant;

use crate::clock::{duration_between, duration_nanos, instant_now, spec_as_nanos, spec_duration_since};
use crate::tier::{Capability, DeviceTier};

verus! {

/// Why a chain refused to move.
#[derive(Debug, Clone, Copy, PartialEq, Eq, Structural)]
pub enum EscalationError {
    MaxTier,
    MinTier,
    CooldownActive,
    NoTiers,
}

/// One rung of the escalation ladder.
#[derive(Debug, Clone)]
pub struct EscalationTier {
    pub tier: DeviceTier,
    pub device_id: String,
    pub capabilities: Vec<Capability>,
    /// Cost of one invocation, in millionths of the currency unit.
    pub cost_per_invocation: Option<u64>,
    /// Expected latency, in nanoseconds.
    pub estimated_latency: u128,
}

/// What happened on the chain, in the order it happened.
#[derive(Debug, Clone)]
pub enum EscalationEvent {
    Escalated { from: DeviceTier, to: DeviceTier, reason: String },
    DeEscalated { from: DeviceTier, to: DeviceTier, reason: String },
    MaxTier { tier: DeviceTier, unresolved: String },
    /// Spending figures in millionths of the currency unit.
    CostAlert { daily_spend: u64, budget: u64 },
}

/// An event with its texts taken as character sequences.
pub enum EventView {
    Escalated { from: DeviceTier, to: DeviceTier, reason: Seq<char> },
    DeEscalated { from: DeviceTier, to: DeviceTier, reason: Seq<char> },
    MaxTier { tier: DeviceTier, unresolved: Seq<char> },
    CostAlert { daily_spend: u64, budget: u64 },
}

impl View for EscalationEvent {
    type V = EventView;

    open spec fn view(&self) -> EventView {
        match self {
            EscalationEvent::Escalated { from, to, reason } => EventView::Escalated {
                from: *from,
                to: *to,
                reason: reason@,
            },
            EscalationEvent::DeEscalated { from, to, reason } => EventView::DeEscalated {
                from: *from,
                to: *to,
                reason: reason@,
            },
            EscalationEvent::MaxTier { tier, unresolved } => EventView::MaxTier {
                tier: *tier,
                unresolved: unresolved@,
            },
            EscalationEvent::CostAlert { daily_spend, budget } => EventView::CostAlert {
                daily_spend: *daily_spend,
                budget: *budget,
            },
        }
    }
}

/// The views of a sequence of events.
pub open spec fn events_view(events: Seq<EscalationEvent>) -> Seq<EventView> {
    events.map_values(|e: EscalationEvent| e@)
}

/// Nanoseconds from the last move `last` to the clock reading `now`, as the
/// monotonic clock measures them; zero when there was no move.
pub open spec fn elapsed_from(last: Option<Instant>, now: Instant) -> nat {
    match last {
        Some(t) => spec_as_nanos(spec_duration_since(now, t)) as nat,
        None => 0,
    }
}

/// Cooldown of a new chain: thirty seconds, in nanoseconds.
pub const DEFAULT_COOLDOWN_NANOS: u128 = 30_000_000_000;

/// The abstract state of an escalation chain.
pub struct ChainView {
    pub tiers: Seq<EscalationTier>,
    /// Index of the tier in use.
    pub current: nat,
    /// Minimum time between two moves, in nanoseconds.
    pub cooldown: nat,
    /// The monotonic-clock reading taken at the last accepted move, if any.
    pub last_move: Option<Instant>,
    /// Escalations into each device id.
    pub counts: Map<Seq<char>, u32>,
    pub events: Seq<EventView>,
}

/// Count of escalations into `id`, zero for an id never seen.
pub open spec fn count_in(counts: Map<Seq<char>, u32>, id: Seq<char>) -> nat {
    if counts.contains_key(id) {
        counts[id] as nat
    } else {
        0
    }
}

/// Counts of a new chain: every device id of `tiers` at zero.
pub open spec fn initial_counts(tiers: Seq<EscalationTier>) -> Map<Seq<char>, u32> {
    Map::new(
        |k: Seq<char>| exists|i: int| 0 <= i < tiers.len() && #[trigger] tiers[i].device_id@ == k,
        |k: Seq<char>| 0u32,
    )
}

/// Result of a move: the index of the tier now in use, or why the chain refused.
pub open spec fn tier_result_matches(
    r: Result<&EscalationTier, EscalationError>,
    expected: Result<nat, EscalationError>,
    tiers: Seq<EscalationTier>,
) -> bool {
    match expected {
        Ok(i) => r matches Ok(t) && *t == tiers[i as int],
        Err(e) => r == Err::<&EscalationTier, EscalationError>(e),
    }
}

impl ChainView {
    /// The tier index always points into the ladder (or is zero on an empty one).
    pub open spec fn valid(self) -> bool {
        if self.tiers.len() == 0 {
            self.current == 0
        } else {
            self.current < self.tiers.len()
        }
    }

    /// Whether a clock reading of `elapsed` nanoseconds since the last move
    /// falls inside the cooldown.
    pub open spec fn cooling(self, elapsed: nat) -> bool {
        self.last_move is Some && elapsed < self.cooldown
    }

    /// Whether the chain is at its top tier (or has no tiers).
    pub open spec fn at_top(self) -> bool {
        self.current + 1 >= self.tiers.len()
    }

    /// The next escalation's count still fits in a `u32`.
    pub open spec fn can_record_escalation(self) -> bool {
        !self.at_top() ==> count_in(self.counts, self.tiers[(self.current + 1) as int].device_id@)
            < u32::MAX
    }

    /// What `trigger` answers, given whether the cooldown is running.
    pub open spec fn trigger_result(self, cooling: bool) -> Result<nat, EscalationError> {
        if self.tiers.len() == 0 {
            Err(EscalationError::NoTiers)
        } else if self.at_top() {
            Err(EscalationError::MaxTier)
        } else if cooling {
            Err(EscalationError::CooldownActive)
        } else {
            Ok(self.current + 1)
        }
    }

    /// The state after `trigger`, given whether the cooldown is running and
    /// the clock reading `now` taken for the move.
    pub open spec fn after_trigger(self, reason: Seq<char>, cooling: bool, now: Instant) -> ChainView {
        if self.tiers.len() == 0 {
            self
        } else if self.at_top() {
            ChainView {
                events: self.events.push(
                    EventView::MaxTier { tier: self.tiers[self.current as int].tier, unresolved: reason },
                ),
                ..self
            }
        } else if cooling {
            self
        } else {
            let next = self.current + 1;
            let id = self.tiers[next as int].device_id@;
            ChainView {
                current: next,
                last_move: Some(now),
                counts: self.counts.insert(id, (count_in(self.counts, id) + 1) as u32),
                events: self.events.push(
                    EventView::Escalated {
                        from: self.tiers[self.current as int].tier,
                        to: self.tiers[next as int].tier,
                        reason,
                    },
                ),
                ..self
            }
        }
    }

    /// What `resolve` answers, given whether the cooldown is running.
    pub open spec fn resolve_result(self, cooling: bool) -> Result<nat, EscalationError> {
        if self.tiers.len() == 0 {
            Err(EscalationError::NoTiers)
        } else if self.current == 0 {
            Err(EscalationError::MinTier)
        } else if cooling {
            Err(EscalationError::CooldownActive)
        } else {
            Ok((self.current - 1) as nat)
        }
    }

    /// The state after `resolve`, given whether the cooldown is running and
    /// the clock reading `now` taken for the move.
    pub open spec fn after_resolve(self, cooling: bool, now: Instant) -> ChainView {
        if self.resolve_result(cooling) is Ok {
            let prev = (self.current - 1) as nat;
            ChainView {
                current: prev,
                last_move: Some(now),
                events: self.events.push(
                    EventView::DeEscalated {
                        from: self.tiers[self.current as int].tier,
                        to: self.tiers[prev as int].tier,
                        reason: "resolved"@,
                    },
                ),
                ..self
            }
        } else {
            self
        }
    }

    /// What `can_escalate` answers, given whether the cooldown is running.
    pub open spec fn can_escalate_result(self, cooling: bool) -> bool {
        self.tiers.len() != 0 && !self.at_top() && !cooling
    }
}

/// A ladder of devices that a task climbs when the current one cannot cope,
/// and descends when the trouble is resolved, at most one move per cooldown.
pub struct EscalationChain {
    tiers: Vec<EscalationTier>,
    current_tier: usize,
    cooldown: u128,
    last_escalation: Option<Instant>,
    escalation_count: StringHashMap<u32>,
    events: Vec<EscalationEvent>,
}

impl View for EscalationChain {
    type V = ChainView;

    closed spec fn view(&self) -> ChainView {
        ChainView {
            tiers: self.tiers@,
            current: self.current_tier as nat,
            cooldown: self.cooldown as nat,
            last_move: self.last_escalation,
            counts: self.escalation_count@,
            events: events_view(self.events@),
        }
    }
}

impl EscalationChain {
    /// The tier index points into the ladder (or is zero on an empty one).
    #[verifier::type_invariant]
    spec fn index_in_ladder(self) -> bool {
        self@.valid()
    }

    /// A chain at its first tier, with the default cooldown, no moves and no events.
    pub fn new(tiers: Vec<EscalationTier>) -> (r: Self)
        ensures
            r@.valid(),
            r@.tiers == tiers@,
            r@.current == 0,
            r@.cooldown == DEFAULT_COOLDOWN_NANOS,
            r@.last_move is None,
            r@.counts == initial_counts(tiers@),
            r@.events == Seq::<EventView>::empty(),
    {
        let mut counts: StringHashMap<u32> = StringHashMap::new();
        let n = tiers.len();
        for i in 0..n
            invariant
                n == tiers.len(),
                counts@ == initial_counts(tiers@.take(i as int)),
        {
            let id = tiers[i].device_id.clone();
            counts.insert(id, 0);
            proof {
                let before = tiers@.take(i as int);
                let after = tiers@.take(i + 1);
                assert forall|k: Seq<char>| #[trigger]
                    initial_counts(after).contains_key(k) == counts@.contains_key(k) by {
                    if k == tiers@[i as int].device_id@ {
                        assert(after[i as int].device_id@ == k);
                    } else if counts@.contains_key(k) {
                        let j = choose|j: int|
                            0 <= j < before.len() && #[trigger] before[j].device_id@ == k;
                        assert(after[j].device_id@ == k);
                    } else if initial_counts(after).contains_key(k) {
                        let j = choose|j: int|
                            0 <= j < after.len() && #[trigger] after[j].device_id@ == k;
                        assert(before[j].device_id@ == k);
                    }
                }
                assert(counts@ =~= initial_counts(after));
            }
        }
        proof {
            assert(tiers@.take(n as int) =~= tiers@);
            assert(events_view(Seq::<EscalationEvent>::empty()) =~= Seq::<EventView>::empty());
        }
        EscalationChain {
            tiers,
            current_tier: 0,
            cooldown: DEFAULT_COOLDOWN_NANOS,
            last_escalation: None,
            escalation_count: counts,
            events: Vec::new(),
        }
    }

    /// The same chain with another cooldown, in nanoseconds.
    pub fn with_cooldown(self, cooldown: u128) -> (r: Self)
        ensures
            r@ == (ChainView { cooldown: cooldown as nat, ..self@ }),
    {
        proof {
            use_type_invariant(&self);
        }
        let mut s = self;
        s.cooldown = cooldown;
        s
    }

    /// Nanoseconds from the last move to the clock reading `now` (zero when
    /// the chain has never moved).
    fn nanos_since_last_move(&self, now: &Instant) -> (r: u128)
        ensures
            r == elapsed_from(self@.last_move, *now),
    {
        match &self.last_escalation {
            Some(last) => duration_nanos(&duration_between(now, last)),
            None => 0,
        }
    }

    /// Appends `event` to the log.
    fn record(&mut self, event: EscalationEvent)
        ensures
            final(self)@ == (ChainView { events: old(self)@.events.push(event@), ..old(self)@ }),
    {
        proof {
            use_type_invariant(&*self);
        }
        let ghost ev = event@;
        let mut events: Vec<EscalationEvent> = Vec::new();
        std::mem::swap(&mut events, &mut self.events);
        let ghost old_events = events@;
        events.push(event);
        proof {
            assert(events_view(events@) =~= events_view(old_events).push(ev));
        }
        self.events = events;
    }

    /// Sets the escalation count of `device_id` to `count`.
    fn set_count(&mut self, device_id: String, count: u32)
        ensures
            final(self)@ == (ChainView {
                counts: old(self)@.counts.insert(device_id@, count),
                ..old(self)@
            }),
    {
        proof {
            use_type_invariant(&*self);
        }
        let mut counts: StringHashMap<u32> = StringHashMap::new();
        std::mem::swap(&mut counts, &mut self.escalation_count);
        counts.insert(device_id, count);
        self.escalation_count = counts;
    }

    /// Moves one tier up, the cooldown being judged on `elapsed` nanoseconds
    /// since the last move; an accepted move records `now` as the time of the
    /// last move. At the top tier the request is recorded as an unresolved
    /// event and refused.
    pub fn trigger_with_elapsed(&mut self, reason: String, elapsed: u128, now: Instant) -> (r:
        Result<&EscalationTier, EscalationError>)
        requires
            !old(self)@.cooling(elapsed as nat) ==> old(self)@.can_record_escalation(),
        ensures
            final(self)@.valid(),
            final(self)@ == old(self)@.after_trigger(
                reason@,
                old(self)@.cooling(elapsed as nat),
                now,
            ),
            tier_result_matches(
                r,
                old(self)@.trigger_result(old(self)@.cooling(elapsed as nat)),
                final(self)@.tiers,
            ),
            ({
                let s = old(self)@;
                (s.tiers.len() > 0 && s.current + 1 == s.tiers.len()) ==> {
                    &&& r == Err::<&EscalationTier, EscalationError>(EscalationError::MaxTier)
                    &&& final(self)@.events == s.events.push(
                        EventView::MaxTier { tier: s.tiers[s.current as int].tier, unresolved: reason@ },
                    )
                    &&& final(self)@.current == s.current
                    &&& final(self)@.last_move == s.last_move
                    &&& final(self)@.counts == s.counts
                }
            }),
            ({
                let s = old(self)@;
                (s.current + 1 < s.tiers.len() && s.last_move is Some && elapsed < s.cooldown) ==> {
                    &&& r == Err::<&EscalationTier, EscalationError>(EscalationError::CooldownActive)
                    &&& final(self)@ == s
                }
            }),
    {
        proof {
            use_type_invariant(&*self);
        }
        let ghost pre = self@;
        if self.tiers.len() == 0 {
            return Err(EscalationError::NoTiers);
        }
        if self.current_tier >= self.tiers.len() - 1 {
            let event = EscalationEvent::MaxTier {
                tier: self.tiers[self.current_tier].tier,
                unresolved: reason,
            };
            self.record(event);
            return Err(EscalationError::MaxTier);
        }
        if self.last_escalation.is_some() && elapsed < self.cooldown {
            return Err(EscalationError::CooldownActive);
        }
        let from_tier = self.tiers[self.current_tier].tier;
        self.current_tier = self.current_tier + 1;
        let to_tier = self.tiers[self.current_tier].tier;
        self.last_escalation = Some(now);

        let device_id = self.tiers[self.current_tier].device_id.clone();
        let so_far: u32 = match self.escalation_count.get(device_id.as_str()) {
            Some(c) => *c,
            None => 0,
        };
        self.set_count(device_id, so_far + 1);

        let event = EscalationEvent::Escalated { from: from_tier, to: to_tier, reason };
        self.record(event);
        proof {
            assert(self@ =~= pre.after_trigger(reason@, false, now));
        }
        Ok(&self.tiers[self.current_tier])
    }

    /// Moves one tier up, unless the chain has no tiers, is at its top tier
    /// (the request is then recorded as an unresolved event), or moved less
    /// than a cooldown ago by the monotonic clock. An accepted move records
    /// the clock reading it took as the time of the last move.
    pub fn trigger(&mut self, reason: String) -> (r: Result<&EscalationTier, EscalationError>)
        requires
            old(self)@.can_record_escalation(),
        ensures
            final(self)@.valid(),
            exists|now: Instant|
                #![trigger elapsed_from(old(self)@.last_move, now)]
                final(self)@ == old(self)@.after_trigger(
                    reason@,
                    old(self)@.cooling(elapsed_from(old(self)@.last_move, now)),
                    now,
                ) && tier_result_matches(
                    r,
                    old(self)@.trigger_result(
                        old(self)@.cooling(elapsed_from(old(self)@.last_move, now)),
                    ),
                    final(self)@.tiers,
                ),
            ({
                let s = old(self)@;
                (s.tiers.len() > 0 && s.current + 1 == s.tiers.len()) ==> {
                    &&& r == Err::<&EscalationTier, EscalationError>(EscalationError::MaxTier)
                    &&& final(self)@.events == s.events.push(
                        EventView::MaxTier { tier: s.tiers[s.current as int].tier, unresolved: reason@ },
                    )
                    &&& final(self)@.current == s.current
                    &&& final(self)@.last_move == s.last_move
                    &&& final(self)@.counts == s.counts
                }
            }),
    {
        let now = instant_now();
        let elapsed = self.nanos_since_last_move(&now);
        self.trigger_with_elapsed(reason, elapsed, now)
    }

    /// Moves one tier down, the cooldown being judged on `elapsed`
    /// nanoseconds since the last move; an accepted move records `now` as the
    /// time of the last move.
    pub fn resolve_with_elapsed(&mut self, elapsed: u128, now: Instant) -> (r: Result<
        &EscalationTier,
        EscalationError,
    >)
        ensures
            final(self)@.valid(),
            final(self)@ == old(self)@.after_resolve(old(self)@.cooling(elapsed as nat), now),
            tier_result_matches(
                r,
                old(self)@.resolve_result(old(self)@.cooling(elapsed as nat)),
                final(self)@.tiers,
            ),
    {
        proof {
            use_type_invariant(&*self);
        }
        let ghost pre = self@;
        if self.tiers.len() == 0 {
            return Err(EscalationError::NoTiers);
        }
        if self.current_tier == 0 {
            return Err(EscalationError::MinTier);
        }
        if self.last_escalation.is_some() && elapsed < self.cooldown {
            return Err(EscalationError::CooldownActive);
        }
        let from_tier = self.tiers[self.current_tier].tier;
        self.current_tier = self.current_tier - 1;
        let to_tier = self.tiers[self.current_tier].tier;
        self.last_escalation = Some(now);

        let reason = "resolved".to_string();
        proof {
            reveal_strlit("resolved");
        }
        let event = EscalationEvent::DeEscalated { from: from_tier, to: to_tier, reason };
        self.record(event);
        proof {
            assert(self@ =~= pre.after_resolve(false, now));
        }
        Ok(&self.tiers[self.current_tier])
    }

    /// Moves one tier down, unless the chain has no tiers, is at its first
    /// tier, or moved less than a cooldown ago by the monotonic clock. An
    /// accepted move records the clock reading it took as the time of the
    /// last move.
    pub fn resolve(&mut self) -> (r: Result<&EscalationTier, EscalationError>)
        ensures
            final(self)@.valid(),
            exists|now: Instant|
                #![trigger elapsed_from(old(self)@.last_move, now)]
                final(self)@ == old(self)@.after_resolve(
                    old(self)@.cooling(elapsed_from(old(self)@.last_move, now)),
                    now,
                ) && tier_result_matches(
                    r,
                    old(self)@.resolve_result(
                        old(self)@.cooling(elapsed_from(old(self)@.last_move, now)),
                    ),
                    final(self)@.tiers,
                ),
    {
        let now = instant_now();
        let elapsed = self.nanos_since_last_move(&now);
        self.resolve_with_elapsed(elapsed, now)
    }

    /// Whether a move up would be accepted, the cooldown being judged on
    /// `elapsed` nanoseconds since the last move.
    pub fn can_escalate_with_elapsed(&self, elapsed: u128) -> (r: bool)
        ensures
            r == self@.can_escalate_result(self@.cooling(elapsed as nat)),
    {
        proof {
            use_type_invariant(self);
        }
        if self.tiers.len() == 0 {
            return false;
        }
        if self.current_tier >= self.tiers.len() - 1 {
            return false;
        }
        if self.last_escalation.is_some() && elapsed < self.cooldown {
            return false;
        }
        true
    }

    /// Whether a move up would be accepted now, by the monotonic clock.
    pub fn can_escalate(&self) -> (r: bool)
        ensures
            exists|now: Instant|
                #![trigger elapsed_from(self@.last_move, now)]
                r == self@.can_escalate_result(self@.cooling(elapsed_from(self@.last_move, now))),
    {
        let now = instant_now();
        let elapsed = self.nanos_since_last_move(&now);
        self.can_escalate_with_elapsed(elapsed)
    }

    /// Whether the count of a move up would still fit: false only when the
    /// next tier's device already has `u32::MAX` escalations.
    pub fn can_record_escalation(&self) -> (r: bool)
        ensures
            r == self@.can_record_escalation(),
    {
        proof {
            use_type_invariant(self);
        }
        if self.tiers.len() == 0 || self.current_tier >= self.tiers.len() - 1 {
            return true;
        }
        let next = &self.tiers[self.current_tier + 1];
        match self.escalation_count.get(next.device_id.as_str()) {
            Some(c) => *c < u32::MAX,
            None => true,
        }
    }

    /// The tier in use.
    pub fn current(&self) -> (r: &EscalationTier)
        requires
            self@.tiers.len() > 0,
        ensures
            *r == self@.tiers[self@.current as int],
    {
        proof {
            use_type_invariant(self);
        }
        &self.tiers[self.current_tier]
    }

    /// Every event so far, oldest first.
    pub fn events(&self) -> (r: &[EscalationEvent])
        ensures
            events_view(r@) == self@.events,
    {
        self.events.as_slice()
    }

    /// How many escalations have landed on `device_id`.
    pub fn escalation_count(&self, device_id: &str) -> (r: u32)
        ensures
            r == count_in(self@.counts, device_id@),
    {
        match self.escalation_count.get(device_id) {
            Some(c) => *c,
            None => 0,
        }
    }
}

/// Moving up and then down again, each move accepted, brings the chain back
/// to the tier it started from, over the same ladder, with the same cooldown
/// and with the count of the move up kept; both moves are on record, in
/// order, and the time of the move down is the time of the last move.
pub proof fn lemma_resolve_undoes_trigger(
    s: ChainView,
    reason: Seq<char>,
    cooling_up: bool,
    now_up: Instant,
    cooling_down: bool,
    now_down: Instant,
)
    requires
        s.valid(),
        s.trigger_result(cooling_up) is Ok,
        s.after_trigger(reason, cooling_up, now_up).resolve_result(cooling_down) is Ok,
    ensures
        ({
            let up = s.after_trigger(reason, cooling_up, now_up);
            let back = up.after_resolve(cooling_down, now_down);
            &&& back.current == s.current
            &&& back.tiers == s.tiers
            &&& back.cooldown == s.cooldown
            &&& back.counts == up.counts
            &&& back.last_move == Some(now_down)
            &&& back.events == s.events.push(
                EventView::Escalated {
                    from: s.tiers[s.current as int].tier,
                    to: s.tiers[(s.current + 1) as int].tier,
                    reason,
                },
            ).push(
                EventView::DeEscalated {
                    from: s.tiers[(s.current + 1) as int].tier,
                    to: s.tiers[s.current as int].tier,
                    reason: "resolved"@,
                },
            )
        }),
{
}

/// With a zero cooldown, a move down right after an accepted move up is
/// always accepted, whatever the clock reads: it returns to the tier the
/// chain started from, records two events and keeps the count of the move up.
pub proof fn lemma_zero_cooldown_resolve_after_trigger(
    s: ChainView,
    reason: Seq<char>,
    elapsed_up: nat,
    now_up: Instant,
    elapsed_down: nat,
    now_down: Instant,
)
    requires
        s.valid(),
        s.cooldown == 0,
        s.trigger_result(s.cooling(elapsed_up)) is Ok,
    ensures
        ({
            let up = s.after_trigger(reason, s.cooling(elapsed_up), now_up);
            let back = up.after_resolve(up.cooling(elapsed_down), now_down);
            &&& up.resolve_result(up.cooling(elapsed_down)) == Ok::<nat, EscalationError>(s.current)
            &&& back.current == s.current
            &&& back.tiers[back.current as int] == s.tiers[s.current as int]
            &&& back.events.len() == s.events.len() + 2
            &&& back.counts == up.counts
        }),
{
}

/// An accepted move goes exactly one tier up (or down) and records `now` as
/// the time of the last move; a refused one leaves the tier, the ladder, the
/// counts and the time of the last move as they were.
pub proof fn lemma_moves_are_single_steps(
    s: ChainView,
    reason: Seq<char>,
    cooling: bool,
    now: Instant,
)
    requires
        s.valid(),
    ensures
        s.trigger_result(cooling) is Ok ==> s.trigger_result(cooling) == Ok::<
            nat,
            EscalationError,
        >(s.current + 1) && s.after_trigger(reason, cooling, now).current == s.current + 1
            && s.after_trigger(reason, cooling, now).last_move == Some(now),
        s.trigger_result(cooling) is Err ==> {
            let t = s.after_trigger(reason, cooling, now);
            t.current == s.current && t.tiers == s.tiers && t.counts == s.counts && t.last_move
                == s.last_move
        },
        s.resolve_result(cooling) is Ok ==> s.resolve_result(cooling) == Ok::<
            nat,
            EscalationError,
        >((s.current - 1) as nat) && s.after_resolve(cooling, now).current + 1 == s.current
            && s.after_resolve(cooling, now).last_move == Some(now),
        s.resolve_result(cooling) is Err ==> s.after_resolve(cooling, now) == s,
{
}

/// Every move, accepted or not, keeps the tier index inside the ladder.
pub proof fn lemma_moves_keep_chain_valid(s: ChainView, reason: Seq<char>, cooling: bool, now: Instant)
    requires
        s.valid(),
    ensures
        s.after_trigger(reason, cooling, now).valid(),
        s.after_resolve(cooling, now).valid(),
{
}

/// The event log only grows, by at most one event per call, and what was
/// recorded stays as it was.
pub proof fn lemma_events_only_grow(s: ChainView, reason: Seq<char>, cooling: bool, now: Instant)
    ensures
        ({
            let t = s.after_trigger(reason, cooling, now);
            &&& s.events.len() <= t.events.len() <= s.events.len() + 1
            &&& t.events.subrange(0, s.events.len() as int) == s.events
        }),
        ({
            let t = s.after_resolve(cooling, now);
            &&& s.events.len() <= t.events.len() <= s.events.len() + 1
            &&& t.events.subrange(0, s.events.len() as int) == s.events
        }),
{
    let t = s.after_trigger(reason, cooling, now);
    assert(t.events.subrange(0, s.events.len() as int) =~= s.events);
    let u = s.after_resolve(cooling, now);
    assert(u.events.subrange(0, s.events.len() as int) =~= s.events);
}

/// A refusal at the top tier records the unresolved request and changes
/// nothing else (the time of the last move included); every other refusal
/// changes nothing at all.
pub proof fn lemma_refusals(s: ChainView, reason: Seq<char>, cooling: bool, now: Instant)
    requires
        s.valid(),
    ensures
        s.trigger_result(cooling) == Err::<nat, EscalationError>(EscalationError::MaxTier)
            ==> s.after_trigger(reason, cooling, now) == (ChainView {
            events: s.events.push(
                EventView::MaxTier { tier: s.tiers[s.current as int].tier, unresolved: reason },
            ),
            ..s
        }),
        (s.trigger_result(cooling) is Err && s.trigger_result(cooling) != Err::<
            nat,
            EscalationError,
        >(EscalationError::MaxTier)) ==> s.after_trigger(reason, cooling, now) == s,
        s.resolve_result(cooling) is Err ==> s.after_resolve(cooling, now) == s,
{
}

/// `can_escalate` answers yes exactly when `trigger` would move the chain up.
pub proof fn lemma_can_escalate_iff_trigger_moves(s: ChainView, cooling: bool)
    ensures
        s.can_escalate_result(cooling) == (s.trigger_result(cooling) is Ok),
{
}

/// With a zero cooldown, no clock reading ever blocks a move.
pub proof fn lemma_zero_cooldown_never_blocks(s: ChainView, elapsed: nat)
    requires
        s.cooldown == 0,
    ensures
        !s.cooling(elapsed),
{
}

/// An accepted move up adds exactly one escalation to the device now in use
/// and leaves every other device's count as it was.
pub proof fn lemma_trigger_counts_one(
    s: ChainView,
    reason: Seq<char>,
    cooling: bool,
    now: Instant,
    id: Seq<char>,
)
    requires
        s.valid(),
        s.can_record_escalation(),
        s.trigger_result(cooling) is Ok,
    ensures
        ({
            let t = s.after_trigger(reason, cooling, now);
            let target = s.tiers[(s.current + 1) as int].device_id@;
            count_in(t.counts, id) == count_in(s.counts, id) + if id == target {
                1nat
            } else {
                0nat
            }
        }),
{
}

/// One call on a chain, with the clock readings it would take.
pub enum ChainStep {
    /// `trigger(reason)`, the clock reading `elapsed` nanoseconds since the
    /// last move and `now` at the move.
    Trigger { reason: Seq<char>, elapsed: nat, now: Instant },
    /// `resolve()`, with the same clock readings.
    Resolve { elapsed: nat, now: Instant },
    /// `with_cooldown(nanos)`.
    SetCooldown { nanos: nat },
}

/// The state after one call.
pub open spec fn apply_step(s: ChainView, step: ChainStep) -> ChainView {
    match step {
        ChainStep::Trigger { reason, elapsed, now } => s.after_trigger(reason, s.cooling(elapsed), now),
        ChainStep::Resolve { elapsed, now } => s.after_resolve(s.cooling(elapsed), now),
        ChainStep::SetCooldown { nanos } => ChainView { cooldown: nanos, ..s },
    }
}

/// How far one call moves the chain: one up for an accepted trigger, one
/// down for an accepted resolve, nothing otherwise.
pub open spec fn step_moves(s: ChainView, step: ChainStep) -> int {
    match step {
        ChainStep::Trigger { reason, elapsed, now } => if s.trigger_result(s.cooling(elapsed)) is Ok {
            1
        } else {
            0
        },
        ChainStep::Resolve { elapsed, now } => if s.resolve_result(s.cooling(elapsed)) is Ok {
            -1
        } else {
            0
        },
        ChainStep::SetCooldown { nanos } => 0,
    }
}

/// The state after the calls `steps`, in order.
pub open spec fn run_steps(s: ChainView, steps: Seq<ChainStep>) -> ChainView
    decreases steps.len(),
{
    if steps.len() == 0 {
        s
    } else {
        apply_step(run_steps(s, steps.drop_last()), steps.last())
    }
}

/// Accepted triggers minus accepted resolves along `steps`.
pub open spec fn net_moves(s: ChainView, steps: Seq<ChainStep>) -> int
    decreases steps.len(),
{
    if steps.len() == 0 {
        0
    } else {
        net_moves(s, steps.drop_last()) + step_moves(run_steps(s, steps.drop_last()), steps.last())
    }
}

/// After any sequence of calls the ladder is unchanged, the tier index stays
/// inside it, and the tier in use is the starting one moved by the accepted
/// triggers minus the accepted resolves.
pub proof fn lemma_current_after_steps(s: ChainView, steps: Seq<ChainStep>)
    requires
        s.valid(),
    ensures
        run_steps(s, steps).valid(),
        run_steps(s, steps).tiers == s.tiers,
        run_steps(s, steps).current == s.current + net_moves(s, steps),
    decreases steps.len(),
{
    if steps.len() > 0 {
        lemma_current_after_steps(s, steps.drop_last());
    }
}

/// What a move up does, case by case: on an empty ladder it is refused
/// with `NoTiers`; at the top tier it is refused with `MaxTier` and the
/// request is recorded as unresolved, however recent the last move; below
/// the top, inside the cooldown it is refused with `CooldownActive` and
/// nothing changes; otherwise the chain moves to the next tier, counts one
/// more escalation for its device, records the move and its time.
pub proof fn lemma_trigger_outcomes(s: ChainView, reason: Seq<char>, elapsed: nat, now: Instant)
    requires
        s.valid(),
    ensures
        ({
            let cooling = s.cooling(elapsed);
            let t = s.after_trigger(reason, cooling, now);
            let r = s.trigger_result(cooling);
            &&& s.tiers.len() == 0 ==> r == Err::<nat, EscalationError>(EscalationError::NoTiers)
                && t == s
            &&& (s.tiers.len() > 0 && s.current + 1 == s.tiers.len()) ==> r == Err::<
                nat,
                EscalationError,
            >(EscalationError::MaxTier) && t == (ChainView {
                events: s.events.push(
                    EventView::MaxTier { tier: s.tiers[s.current as int].tier, unresolved: reason },
                ),
                ..s
            })
            &&& (s.current + 1 < s.tiers.len() && s.last_move is Some && elapsed < s.cooldown) ==> r
                == Err::<nat, EscalationError>(EscalationError::CooldownActive) && t == s
            &&& (s.current + 1 < s.tiers.len() && (s.last_move is None || elapsed >= s.cooldown))
                ==> {
                let id = s.tiers[(s.current + 1) as int].device_id@;
                &&& r == Ok::<nat, EscalationError>(s.current + 1)
                &&& t.current == s.current + 1
                &&& t.tiers == s.tiers
                &&& t.cooldown == s.cooldown
                &&& t.last_move == Some(now)
                &&& t.counts == s.counts.insert(id, (count_in(s.counts, id) + 1) as u32)
                &&& t.events == s.events.push(
                    EventView::Escalated {
                        from: s.tiers[s.current as int].tier,
                        to: s.tiers[(s.current + 1) as int].tier,
                        reason,
                    },
                )
            }
        }),
{
}

/// What a move down does, case by case: on an empty ladder it is refused
/// with `NoTiers`; at the first tier with `MinTier`; inside the cooldown
/// with `CooldownActive`; a refusal changes nothing. Otherwise the chain
/// moves to the previous tier and records the move, with the reason
/// "resolved", and its time; the counts stay as they were.
pub proof fn lemma_resolve_outcomes(s: ChainView, elapsed: nat, now: Instant)
    requires
        s.valid(),
    ensures
        ({
            let cooling = s.cooling(elapsed);
            let t = s.after_resolve(cooling, now);
            let r = s.resolve_result(cooling);
            &&& s.tiers.len() == 0 ==> r == Err::<nat, EscalationError>(EscalationError::NoTiers)
                && t == s
            &&& (s.tiers.len() > 0 && s.current == 0) ==> r == Err::<nat, EscalationError>(
                EscalationError::MinTier,
            ) && t == s
            &&& (s.tiers.len() > 0 && s.current > 0 && s.last_move is Some && elapsed < s.cooldown)
                ==> r == Err::<nat, EscalationError>(EscalationError::CooldownActive) && t == s
            &&& (s.tiers.len() > 0 && s.current > 0 && (s.last_move is None || elapsed >= s.cooldown))
                ==> {
                &&& r == Ok::<nat, EscalationError>((s.current - 1) as nat)
                &&& t.current + 1 == s.current
                &&& t.tiers == s.tiers
                &&& t.cooldown == s.cooldown
                &&& t.last_move == Some(now)
                &&& t.counts == s.counts
                &&& t.events == s.events.push(
                    EventView::DeEscalated {
                        from: s.tiers[s.current as int].tier,
                        to: s.tiers[s.current - 1].tier,
                        reason: "resolved"@,
                    },
                )
            }
        }),
{
}

/// `can_escalate` says yes exactly on a non-empty ladder below its top
/// tier, when the chain never moved or the last move is at least a
/// cooldown old.
pub proof fn lemma_can_escalate_outcome(s: ChainView, elapsed: nat)
    ensures
        s.can_escalate_result(s.cooling(elapsed)) == (s.tiers.len() > 0 && s.current + 1
            < s.tiers.len() && (s.last_move is None || elapsed >= s.cooldown)),
{
}

} // verus!
