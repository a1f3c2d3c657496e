use vstd::prelude::*;
use vstd::string::*;

use crate::text::{decimal, decimal_string, round_half_even, rounded_quotient};
use crate::tier::{capability_name, tier_name, tier_rank, Capability, DeviceTier};

verus! {

/// A device's load when fully busy, in parts per million.
pub const FULL_LOAD: u32 = 1_000_000;

/// Parts per million in one percent.
pub const LOAD_PER_PERCENT: u64 = 10_000;

/// What the rebalancer knows of one device.
#[derive(Debug, Clone)]
pub struct DeviceState {
    pub id: String,
    pub tier: DeviceTier,
    pub online: bool,
    /// Share of the device in use, in parts per million of `FULL_LOAD`.
    pub current_load: u32,
    /// In nanoseconds.
    pub latency: u128,
    /// In millionths of the currency unit.
    pub cost_per_unit: u64,
    pub capabilities: Vec<Capability>,
}

/// How the user wants work placed. Amounts are in millionths of the currency
/// unit, durations in nanoseconds.
#[derive(Debug, Clone, Copy, PartialEq, Eq, Structural)]
pub struct UserPreferences {
    pub prefer_local: bool,
    pub max_cloud_spend: u64,
    pub max_latency: u128,
    pub allow_degraded: bool,
}

impl Default for UserPreferences {
    /// Prefer local devices, allow fifty currency units of cloud spend and
    /// five seconds of latency, no degraded service.
    fn default() -> (r: Self)
        ensures
            r == (UserPreferences {
                prefer_local: true,
                max_cloud_spend: 50_000_000,
                max_latency: 5_000_000_000,
                allow_degraded: false,
            }),
    {
        UserPreferences {
            prefer_local: true,
            max_cloud_spend: 50_000_000,
            max_latency: 5_000_000_000,
            allow_degraded: false,
        }
    }
}

/// What a task needs. `max_latency` is in nanoseconds, `max_cost` in
/// millionths of the currency unit.
#[derive(Debug, Clone, Copy, PartialEq, Eq, Structural)]
pub struct TaskRequirements {
    pub required_capability: Capability,
    pub max_latency: Option<u128>,
    pub max_cost: Option<u64>,
}

/// Where to run a task, and why.
#[derive(Debug, Clone)]
pub struct RebalanceDecision {
    pub use_device: String,
    pub reason: String,
    /// In millionths of the currency unit.
    pub estimated_cost: u64,
    /// In nanoseconds.
    pub estimated_latency: u128,
}

/// A task that only names a capability.
pub open spec fn any_task(cap: Capability) -> TaskRequirements {
    TaskRequirements { required_capability: cap, max_latency: None, max_cost: None }
}

/// Whether `d` can take a task needing `req` under `prefs`: online, able,
/// not fully loaded, and within the task's and the user's limits.
pub open spec fn is_candidate(d: DeviceState, req: TaskRequirements, prefs: UserPreferences) -> bool {
    &&& d.online
    &&& d.capabilities@.contains(req.required_capability)
    &&& d.current_load < FULL_LOAD
    &&& (req.max_latency matches Some(m) ==> d.latency <= m)
    &&& (req.max_cost matches Some(c) ==> d.cost_per_unit <= c)
    &&& d.latency <= prefs.max_latency
}

/// What candidates are ranked by: tier (most local first) when the user
/// prefers local devices, cost otherwise.
pub open spec fn rank_key(d: DeviceState, prefs: UserPreferences) -> nat {
    if prefs.prefer_local {
        tier_rank(d.tier)
    } else {
        d.cost_per_unit as nat
    }
}

/// `devs[i]` is the chosen candidate: no candidate ranks lower, and none
/// ranks the same at an earlier position.
pub open spec fn is_choice(
    devs: Seq<DeviceState>,
    i: int,
    req: TaskRequirements,
    prefs: UserPreferences,
) -> bool {
    &&& 0 <= i < devs.len()
    &&& is_candidate(devs[i], req, prefs)
    &&& forall|j: int|
        0 <= j < devs.len() && #[trigger] is_candidate(devs[j], req, prefs) ==> rank_key(
            devs[i],
            prefs,
        ) < rank_key(devs[j], prefs) || (rank_key(devs[i], prefs) == rank_key(devs[j], prefs)
            && i <= j)
}

/// A device's load in whole percent, rounded to the nearest, a tie going to
/// the even neighbour.
pub open spec fn load_percent(load: u32) -> nat {
    round_half_even(load as nat, LOAD_PER_PERCENT as nat)
}

/// The explanation given for choosing `d`.
pub open spec fn selection_reason(d: DeviceState) -> Seq<char> {
    "selected "@ + tier_name(d.tier) + " device (load: "@ + decimal(load_percent(d.current_load))
        + "%)"@
}

/// `dec` sends the task to `d`.
pub open spec fn decision_for(dec: RebalanceDecision, d: DeviceState) -> bool {
    &&& dec.use_device@ == d.id@
    &&& dec.reason@ == selection_reason(d)
    &&& dec.estimated_cost == d.cost_per_unit
    &&& dec.estimated_latency == d.latency
}

/// The positions of the devices chosen, in order, for tasks needing each of
/// `caps` in turn; capabilities no device can serve are skipped.
pub open spec fn replacements(
    devs: Seq<DeviceState>,
    caps: Seq<Capability>,
    prefs: UserPreferences,
) -> Seq<int>
    decreases caps.len(),
{
    if caps.len() == 0 {
        Seq::empty()
    } else {
        let rest = replacements(devs, caps.drop_last(), prefs);
        let req = any_task(caps.last());
        if exists|i: int| is_choice(devs, i, req, prefs) {
            rest.push(choose|i: int| is_choice(devs, i, req, prefs))
        } else {
            rest
        }
    }
}

/// `other` runs `cap` online on a less local tier than `target`: work that
/// could come back to `target`.
pub open spec fn could_migrate(other: DeviceState, target: DeviceState, cap: Capability) -> bool {
    &&& other.online
    &&& other.id@ != target.id@
    &&& tier_rank(other.tier) > tier_rank(target.tier)
    &&& other.capabilities@.contains(cap)
}

/// `devs[j]` is the first device from which `cap` work could come back to `target`.
pub open spec fn is_first_source(
    devs: Seq<DeviceState>,
    j: int,
    target: DeviceState,
    cap: Capability,
) -> bool {
    &&& 0 <= j < devs.len()
    &&& could_migrate(devs[j], target, cap)
    &&& forall|k: int| 0 <= k < j ==> !could_migrate(#[trigger] devs[k], target, cap)
}

/// The capabilities of `caps`, in order, for which some device could hand
/// work back to `target`, each with the first such device's position.
pub open spec fn migrations(devs: Seq<DeviceState>, target: DeviceState, caps: Seq<Capability>) -> Seq<
    (Capability, int),
>
    decreases caps.len(),
{
    if caps.len() == 0 {
        Seq::empty()
    } else {
        let rest = migrations(devs, target, caps.drop_last());
        let cap = caps.last();
        if exists|j: int| is_first_source(devs, j, target, cap) {
            rest.push((cap, choose|j: int| is_first_source(devs, j, target, cap)))
        } else {
            rest
        }
    }
}

/// `dec` moves `cap` work to `target` from some online device other than
/// `target`, on a strictly less local tier, that can do `cap`, and says so.
pub open spec fn moved_from_less_local(
    devs: Seq<DeviceState>,
    target: DeviceState,
    cap: Capability,
    dec: RebalanceDecision,
) -> bool {
    exists|src: int|
        0 <= src < devs.len() && (#[trigger] devs[src]).online && devs[src].id@ != target.id@
            && tier_rank(devs[src].tier) > tier_rank(target.tier) && devs[src].capabilities@.contains(cap)
            && dec.use_device@ == target.id@ && dec.reason@ == migration_reason(cap, devs[src].tier, target.tier)
}

/// The explanation given for moving `cap` work from `from` back to `to`.
pub open spec fn migration_reason(cap: Capability, from: DeviceTier, to: DeviceTier) -> Seq<char> {
    "migrating "@ + capability_name(cap) + " tasks from "@ + tier_name(from) + " to "@ + tier_name(
        to,
    ) + " (prefer local)"@
}

/// `decs` proposes, one for each of `moves` in order, to run the moved work
/// on `target`.
pub open spec fn migration_decisions(
    decs: Seq<RebalanceDecision>,
    devs: Seq<DeviceState>,
    target: DeviceState,
    moves: Seq<(Capability, int)>,
) -> bool {
    &&& decs.len() == moves.len()
    &&& forall|m: int|
        0 <= m < moves.len() ==> {
            &&& (#[trigger] decs[m]).use_device@ == target.id@
            &&& decs[m].reason@ == migration_reason(moves[m].0, devs[moves[m].1].tier, target.tier)
            &&& decs[m].estimated_cost == target.cost_per_unit
            &&& decs[m].estimated_latency == target.latency
        }
}

/// The abstract state of a rebalancer: its devices in the order they were
/// first added, and the user's preferences.
pub struct RebalancerView {
    pub devices: Seq<DeviceState>,
    pub preferences: UserPreferences,
}

impl RebalancerView {
    /// No device id occurs twice.
    pub open spec fn valid(self) -> bool {
        forall|i: int, j: int|
            0 <= i < self.devices.len() && 0 <= j < self.devices.len() && i != j
                ==> #[trigger] self.devices[i].id@ != #[trigger] self.devices[j].id@
    }

    /// Whether a device with id `id` is known.
    pub open spec fn has(self, id: Seq<char>) -> bool {
        exists|i: int| 0 <= i < self.devices.len() && #[trigger] self.devices[i].id@ == id
    }

    /// The position of the device with id `id`.
    pub open spec fn index_of(self, id: Seq<char>) -> int
        recommends
            self.has(id),
    {
        choose|i: int| 0 <= i < self.devices.len() && #[trigger] self.devices[i].id@ == id
    }

    /// The device with id `id`, if known.
    pub open spec fn lookup(self, id: Seq<char>) -> Option<DeviceState> {
        if self.has(id) {
            Some(self.devices[self.index_of(id)])
        } else {
            None
        }
    }

    /// The devices after adding `d`, which replaces a known device with the same id.
    pub open spec fn with_added(self, d: DeviceState) -> Seq<DeviceState> {
        if self.has(d.id@) {
            self.devices.update(self.index_of(d.id@), d)
        } else {
            self.devices.push(d)
        }
    }

    /// The devices after forgetting the one with id `id`, if known.
    pub open spec fn with_removed(self, id: Seq<char>) -> Seq<DeviceState> {
        if self.has(id) {
            self.devices.remove(self.index_of(id))
        } else {
            self.devices
        }
    }

    /// The devices after the one with id `id` (if any) is marked `online`.
    pub open spec fn with_online(self, id: Seq<char>, online: bool) -> Seq<DeviceState> {
        if self.has(id) {
            let i = self.index_of(id);
            self.devices.update(i, DeviceState { online, ..self.devices[i] })
        } else {
            self.devices
        }
    }
}

/// Keeps track of the devices and decides where tasks should run.
pub struct Rebalancer {
    devices: Vec<DeviceState>,
    preferences: UserPreferences,
}

impl View for Rebalancer {
    type V = RebalancerView;

    closed spec fn view(&self) -> RebalancerView {
        RebalancerView { devices: self.devices@, preferences: self.preferences }
    }
}

/// Whether `caps` lists `cap`.
fn has_capability(caps: &Vec<Capability>, cap: Capability) -> (r: bool)
    ensures
        r == caps@.contains(cap),
{
    let n = caps.len();
    for i in 0..n
        invariant
            n == caps.len(),
            forall|k: int| 0 <= k < i ==> caps@[k] != cap,
    {
        if caps[i] == cap {
            return true;
        }
    }
    false
}

/// The explanation given for choosing `d`.
fn selection_reason_text(d: &DeviceState) -> (r: String)
    requires
        d.current_load < FULL_LOAD,
    ensures
        r@ == selection_reason(*d),
{
    let percent = rounded_quotient(d.current_load as u64, LOAD_PER_PERCENT);
    let mut s = String::from_str("selected ");
    s.append(d.tier.name());
    s.append(" device (load: ");
    let digits = decimal_string(percent);
    s.append(digits.as_str());
    s.append("%)");
    s
}

/// The explanation given for moving `cap` work from `from` back to `to`.
fn migration_reason_text(cap: Capability, from: DeviceTier, to: DeviceTier) -> (r: String)
    ensures
        r@ == migration_reason(cap, from, to),
{
    let mut s = String::from_str("migrating ");
    s.append(cap.name());
    s.append(" tasks from ");
    s.append(from.name());
    s.append(" to ");
    s.append(to.name());
    s.append(" (prefer local)");
    s
}

/// Two devices that are both the chosen candidate are the same device.
pub proof fn lemma_choice_unique(
    devs: Seq<DeviceState>,
    i: int,
    j: int,
    req: TaskRequirements,
    prefs: UserPreferences,
)
    requires
        is_choice(devs, i, req, prefs),
        is_choice(devs, j, req, prefs),
    ensures
        i == j,
{
    assert(is_candidate(devs[j], req, prefs));
    assert(is_candidate(devs[i], req, prefs));
}

proof fn lemma_first_source_unique(
    devs: Seq<DeviceState>,
    j: int,
    k: int,
    target: DeviceState,
    cap: Capability,
)
    requires
        is_first_source(devs, j, target, cap),
        is_first_source(devs, k, target, cap),
    ensures
        j == k,
{
    if j < k {
        assert(!could_migrate(devs[j], target, cap));
    } else if k < j {
        assert(!could_migrate(devs[k], target, cap));
    }
}

impl Rebalancer {
    /// No device id occurs twice.
    #[verifier::type_invariant]
    spec fn ids_unique(self) -> bool {
        self@.valid()
    }

    /// A rebalancer with no devices.
    pub fn new(preferences: UserPreferences) -> (r: Self)
        ensures
            r@.valid(),
            r@.devices == Seq::<DeviceState>::empty(),
            r@.preferences == preferences,
    {
        Rebalancer { devices: Vec::new(), preferences }
    }

    /// The position of the device with id `id`.
    fn position(&self, id: &String) -> (r: Option<usize>)
        ensures
            self@.valid(),
            match r {
                Some(i) => i < self@.devices.len() && self@.devices[i as int].id@ == id@ && i
                    == self@.index_of(id@) && self@.has(id@),
                None => !self@.has(id@),
            },
    {
        proof {
            use_type_invariant(self);
        }
        let n = self.devices.len();
        for i in 0..n
            invariant
                n == self.devices.len(),
                self@.valid(),
                forall|k: int| 0 <= k < i ==> self.devices@[k].id@ != id@,
        {
            if self.devices[i].id == *id {
                proof {
                    assert(self@.devices[i as int].id@ == id@);
                    assert(self@.has(id@));
                    let c = self@.index_of(id@);
                    if c != i as int {
                        assert(self@.devices[c].id@ != self@.devices[i as int].id@);
                    }
                }
                return Some(i);
            }
        }
        None
    }

    /// Adds `device`, replacing a known device with the same id.
    pub fn add_device(&mut self, device: DeviceState)
        ensures
            final(self)@.valid(),
            final(self)@.preferences == old(self)@.preferences,
            final(self)@.devices == old(self)@.with_added(device),
    {
        let found = self.position(&device.id);
        let mut devs: Vec<DeviceState> = Vec::new();
        std::mem::swap(&mut devs, &mut self.devices);
        match found {
            Some(i) => {
                devs.set(i, device);
            },
            None => {
                devs.push(device);
            },
        }
        self.devices = devs;
    }

    /// Forgets the device with id `id`, if known.
    pub fn remove_device(&mut self, id: &str)
        ensures
            final(self)@.valid(),
            final(self)@.preferences == old(self)@.preferences,
            final(self)@.devices == old(self)@.with_removed(id@),
    {
        let key = id.to_owned();
        match self.position(&key) {
            Some(i) => {
                let ghost pre = self@.devices;
                let mut devs: Vec<DeviceState> = Vec::new();
                std::mem::swap(&mut devs, &mut self.devices);
                devs.remove(i);
                proof {
                    assert forall|a: int, b: int|
                        0 <= a < devs@.len() && 0 <= b < devs@.len() && a != b
                            implies #[trigger] devs@[a].id@ != #[trigger] devs@[b].id@ by {
                        let pa = if a < i { a } else { a + 1 };
                        let pb = if b < i { b } else { b + 1 };
                        assert(devs@[a] == pre[pa]);
                        assert(devs@[b] == pre[pb]);
                    }
                }
                self.devices = devs;
            },
            None => {},
        }
    }

    /// The device to run a task needing `req` on: among the candidates, the
    /// lowest-ranked one, the first known on a tie; `None` when no device
    /// qualifies.
    pub fn evaluate(&self, req: &TaskRequirements) -> (r: Option<RebalanceDecision>)
        ensures
            match r {
                None => forall|i: int|
                    0 <= i < self@.devices.len() ==> !is_candidate(
                        #[trigger] self@.devices[i],
                        *req,
                        self@.preferences,
                    ),
                Some(dec) => exists|i: int|
                    is_choice(self@.devices, i, *req, self@.preferences) && decision_for(
                        dec,
                        #[trigger] self@.devices[i],
                    ),
            },
            r matches Some(dec) ==> forall|j: int|
                0 <= j < self@.devices.len() && #[trigger] is_candidate(
                    self@.devices[j],
                    *req,
                    self@.preferences,
                ) ==> (!self@.preferences.prefer_local ==> dec.estimated_cost
                    <= self@.devices[j].cost_per_unit),
    {
        let n = self.devices.len();
        let mut best: Option<usize> = None;
        for i in 0..n
            invariant
                n == self.devices.len(),
                match best {
                    None => forall|k: int|
                        0 <= k < i ==> !is_candidate(
                            #[trigger] self@.devices[k],
                            *req,
                            self@.preferences,
                        ),
                    Some(b) => is_choice(self@.devices.take(i as int), b as int, *req, self@.preferences),
                },
        {
            let d = &self.devices[i];
            let fits = d.online && has_capability(&d.capabilities, req.required_capability)
                && d.current_load < FULL_LOAD && match req.max_latency {
                Some(m) => d.latency <= m,
                None => true,
            } && match req.max_cost {
                Some(c) => d.cost_per_unit <= c,
                None => true,
            } && d.latency <= self.preferences.max_latency;
            let ghost prefix = self@.devices.take(i as int);
            let ghost next = self@.devices.take(i + 1);
            assert(next =~= prefix.push(self@.devices[i as int]));
            if fits {
                let better = match best {
                    None => true,
                    Some(b) => self.key_of(d) < self.key_of(&self.devices[b]),
                };
                if better {
                    proof {
                        assert forall|j: int|
                            0 <= j < next.len() && #[trigger] is_candidate(next[j], *req, self@.preferences)
                                implies rank_key(next[i as int], self@.preferences) < rank_key(
                            next[j],
                            self@.preferences,
                        ) || (rank_key(next[i as int], self@.preferences) == rank_key(
                            next[j],
                            self@.preferences,
                        ) && i <= j) by {
                            if j < i {
                                assert(next[j] == prefix[j]);
                                match best {
                                    None => {
                                        assert(!is_candidate(self@.devices[j], *req, self@.preferences));
                                    },
                                    Some(b) => {
                                        assert(prefix[b as int] == next[b as int]);
                                    },
                                }
                            }
                        }
                    }
                    best = Some(i);
                } else {
                    proof {
                        let b = best->0;
                        assert forall|j: int|
                            0 <= j < next.len() && #[trigger] is_candidate(next[j], *req, self@.preferences)
                                implies rank_key(next[b as int], self@.preferences) < rank_key(
                            next[j],
                            self@.preferences,
                        ) || (rank_key(next[b as int], self@.preferences) == rank_key(
                            next[j],
                            self@.preferences,
                        ) && b <= j) by {
                            assert(next[b as int] == prefix[b as int]);
                            if j < i {
                                assert(next[j] == prefix[j]);
                            }
                        }
                    }
                }
            } else {
                proof {
                    match best {
                        None => {},
                        Some(b) => {
                            assert forall|j: int|
                                0 <= j < next.len() && #[trigger] is_candidate(next[j], *req, self@.preferences)
                                    implies rank_key(next[b as int], self@.preferences) < rank_key(
                                next[j],
                                self@.preferences,
                            ) || (rank_key(next[b as int], self@.preferences) == rank_key(
                                next[j],
                                self@.preferences,
                            ) && b <= j) by {
                                assert(next[b as int] == prefix[b as int]);
                                if j < i {
                                    assert(next[j] == prefix[j]);
                                }
                            }
                        },
                    }
                }
            }
        }
        proof {
            assert(self@.devices.take(n as int) =~= self@.devices);
        }
        match best {
            None => None,
            Some(b) => {
                let d = &self.devices[b];
                proof {
                    assert forall|j: int|
                        0 <= j < self@.devices.len() && #[trigger] is_candidate(
                            self@.devices[j],
                            *req,
                            self@.preferences,
                        ) implies (!self@.preferences.prefer_local ==> d.cost_per_unit
                        <= self@.devices[j].cost_per_unit) by {
                        lemma_choice_is_cheapest_or_most_local(
                            self@.devices,
                            b as int,
                            j,
                            *req,
                            self@.preferences,
                        );
                    }
                }
                Some(
                    RebalanceDecision {
                        use_device: d.id.clone(),
                        reason: selection_reason_text(d),
                        estimated_cost: d.cost_per_unit,
                        estimated_latency: d.latency,
                    },
                )
            },
        }
    }

    /// What candidates are ranked by.
    fn key_of(&self, d: &DeviceState) -> (r: u64)
        ensures
            r == rank_key(*d, self.preferences),
    {
        if self.preferences.prefer_local {
            d.tier.rank() as u64
        } else {
            d.cost_per_unit
        }
    }

    /// Marks the device with id `id` offline and, for each of its
    /// capabilities in turn, picks where that work should go now.
    pub fn device_went_offline(&mut self, id: &str) -> (r: Vec<RebalanceDecision>)
        ensures
            final(self)@.valid(),
            final(self)@.preferences == old(self)@.preferences,
            final(self)@.devices == old(self)@.with_online(id@, false),
            !old(self)@.has(id@) ==> r@.len() == 0,
            old(self)@.has(id@) ==> ({
                let caps = old(self)@.devices[old(self)@.index_of(id@)].capabilities@;
                let chosen = replacements(final(self)@.devices, caps, final(self)@.preferences);
                &&& r@.len() == chosen.len()
                &&& forall|k: int|
                    0 <= k < chosen.len() ==> decision_for(
                        #[trigger] r@[k],
                        final(self)@.devices[chosen[k]],
                    )
            }),
            old(self)@.has(id@) ==> ({
                let caps = old(self)@.devices[old(self)@.index_of(id@)].capabilities@;
                let served = caps.filter(servable(final(self)@.devices, final(self)@.preferences));
                &&& r@.len() == served.len()
                &&& forall|m: int|
                    #![trigger r@[m]]
                    0 <= m < r@.len() ==> exists|i: int|
                        is_choice(final(self)@.devices, i, any_task(served[m]), final(self)@.preferences)
                            && decision_for(r@[m], #[trigger] final(self)@.devices[i])
            }),
    {
        let key = id.to_owned();
        let j = match self.position(&key) {
            Some(j) => j,
            None => {
                return Vec::new();
            },
        };
        self.set_online(j, false);
        let mut decisions: Vec<RebalanceDecision> = Vec::new();
        let ncaps = self.devices[j].capabilities.len();
        for k in 0..ncaps
            invariant
                self@.valid(),
                j < self@.devices.len(),
                ncaps == self@.devices[j as int].capabilities@.len(),
                ({
                    let chosen = replacements(
                        self@.devices,
                        self@.devices[j as int].capabilities@.take(k as int),
                        self@.preferences,
                    );
                    &&& decisions@.len() == chosen.len()
                    &&& forall|m: int|
                        0 <= m < chosen.len() ==> decision_for(
                            #[trigger] decisions@[m],
                            self@.devices[chosen[m]],
                        )
                }),
        {
            let cap = self.devices[j].capabilities[k];
            let req = TaskRequirements { required_capability: cap, max_latency: None, max_cost: None };
            let ghost caps = self@.devices[j as int].capabilities@;
            let ghost before = replacements(self@.devices, caps.take(k as int), self@.preferences);
            proof {
                assert(caps.take(k + 1).drop_last() =~= caps.take(k as int));
                assert(caps.take(k + 1).last() == cap);
            }
            match self.evaluate(&req) {
                Some(dec) => {
                    proof {
                        let i = choose|i: int|
                            is_choice(self@.devices, i, req, self@.preferences) && decision_for(
                                dec,
                                #[trigger] self@.devices[i],
                            );
                        let c = choose|i: int| is_choice(self@.devices, i, req, self@.preferences);
                        lemma_choice_unique(self@.devices, i, c, req, self@.preferences);
                    }
                    decisions.push(dec);
                },
                None => {
                    proof {
                        if exists|i: int| is_choice(self@.devices, i, req, self@.preferences) {
                            let c = choose|i: int| is_choice(self@.devices, i, req, self@.preferences);
                            assert(is_candidate(self@.devices[c], req, self@.preferences));
                        }
                    }
                },
            }
        }
        proof {
            let caps = self@.devices[j as int].capabilities@;
            assert(caps.take(ncaps as int) =~= caps);
            let chosen = replacements(self@.devices, caps, self@.preferences);
            let served = caps.filter(servable(self@.devices, self@.preferences));
            lemma_every_servable_capability_replaced(self@.devices, caps, self@.preferences);
            assert forall|m: int| #![trigger decisions@[m]] 0 <= m < decisions@.len() implies exists|i: int|
                is_choice(self@.devices, i, any_task(served[m]), self@.preferences)
                    && decision_for(decisions@[m], #[trigger] self@.devices[i]) by {
                assert(is_choice(self@.devices, chosen[m], any_task(served[m]), self@.preferences));
                assert(decision_for(decisions@[m], self@.devices[chosen[m]]));
            }
        }
        decisions
    }

    /// Sets the online flag of the device at position `j`.
    fn set_online(&mut self, j: usize, online: bool)
        requires
            j < old(self)@.devices.len(),
        ensures
            final(self)@.valid(),
            final(self)@.preferences == old(self)@.preferences,
            final(self)@.devices == old(self)@.devices.update(
                j as int,
                DeviceState { online, ..old(self)@.devices[j as int] },
            ),
    {
        proof {
            use_type_invariant(&*self);
        }
        let ghost pre = self@;
        let mut devs: Vec<DeviceState> = Vec::new();
        std::mem::swap(&mut devs, &mut self.devices);
        let mut d = devs.remove(j);
        d.online = online;
        devs.insert(j, d);
        proof {
            assert(devs@ =~= pre.devices.update(
                j as int,
                DeviceState { online, ..pre.devices[j as int] },
            ));
            assert forall|a: int, b: int|
                0 <= a < devs@.len() && 0 <= b < devs@.len() && a != b
                    implies #[trigger] devs@[a].id@ != #[trigger] devs@[b].id@ by {
                assert(devs@[a].id@ == pre.devices[a].id@);
                assert(devs@[b].id@ == pre.devices[b].id@);
            }
        }
        self.devices = devs;
    }

    /// Marks the device with id `id` online and, when the user prefers local
    /// devices, proposes moving back to it, for each of its capabilities in
    /// turn, work that a less local online device could be running.
    pub fn device_came_online(&mut self, id: &str) -> (r: Vec<RebalanceDecision>)
        ensures
            final(self)@.valid(),
            final(self)@.preferences == old(self)@.preferences,
            final(self)@.devices == old(self)@.with_online(id@, true),
            (!old(self)@.has(id@) || !old(self)@.preferences.prefer_local) ==> r@.len() == 0,
            (old(self)@.has(id@) && old(self)@.preferences.prefer_local) ==> ({
                let target = final(self)@.devices[old(self)@.index_of(id@)];
                migration_decisions(
                    r@,
                    final(self)@.devices,
                    target,
                    migrations(final(self)@.devices, target, target.capabilities@),
                )
            }),
            (old(self)@.has(id@) && old(self)@.preferences.prefer_local) ==> ({
                let devs = final(self)@.devices;
                let target = devs[old(self)@.index_of(id@)];
                let moved = target.capabilities@.filter(movable(devs, target));
                &&& r@.len() == moved.len()
                &&& target.tier == DeviceTier::Cloud ==> r@.len() == 0
                &&& forall|m: int|
                    0 <= m < r@.len() ==> moved_from_less_local(devs, target, moved[m], #[trigger] r@[m])
            }),
    {
        let key = id.to_owned();
        let j = match self.position(&key) {
            Some(j) => j,
            None => {
                return Vec::new();
            },
        };
        self.set_online(j, true);
        if !self.preferences.prefer_local {
            return Vec::new();
        }
        let mut decisions: Vec<RebalanceDecision> = Vec::new();
        let ncaps = self.devices[j].capabilities.len();
        let n = self.devices.len();
        for k in 0..ncaps
            invariant
                self@.valid(),
                n == self@.devices.len(),
                j < n,
                ncaps == self@.devices[j as int].capabilities@.len(),
                migration_decisions(
                    decisions@,
                    self@.devices,
                    self@.devices[j as int],
                    migrations(
                        self@.devices,
                        self@.devices[j as int],
                        self@.devices[j as int].capabilities@.take(k as int),
                    ),
                ),
        {
            let cap = self.devices[j].capabilities[k];
            let ghost target = self@.devices[j as int];
            let ghost caps = target.capabilities@;
            proof {
                assert(caps.take(k + 1).drop_last() =~= caps.take(k as int));
                assert(caps.take(k + 1).last() == cap);
            }
            let ghost decisions_before = decisions@;
            let found = self.first_source(j, cap);
            match found {
                Some(s) => {
                    proof {
                        let c = choose|q: int| is_first_source(self@.devices, q, target, cap);
                        lemma_first_source_unique(self@.devices, s as int, c, target, cap);
                    }
                    let this = &self.devices[j];
                    let dec = RebalanceDecision {
                        use_device: this.id.clone(),
                        reason: migration_reason_text(cap, self.devices[s].tier, this.tier),
                        estimated_cost: this.cost_per_unit,
                        estimated_latency: this.latency,
                    };
                    decisions.push(dec);
                },
                None => {
                    proof {
                        if exists|q: int| is_first_source(self@.devices, q, target, cap) {
                            let c = choose|q: int| is_first_source(self@.devices, q, target, cap);
                            assert(could_migrate(self@.devices[c], target, cap));
                        }
                    }
                },
            }
            proof {
                let moves0 = migrations(self@.devices, target, caps.take(k as int));
                let moves1 = migrations(self@.devices, target, caps.take(k + 1));
                assert forall|m: int| 0 <= m < moves1.len() implies {
                    &&& (#[trigger] decisions@[m]).use_device@ == target.id@
                    &&& decisions@[m].reason@ == migration_reason(
                        moves1[m].0,
                        self@.devices[moves1[m].1].tier,
                        target.tier,
                    )
                    &&& decisions@[m].estimated_cost == target.cost_per_unit
                    &&& decisions@[m].estimated_latency == target.latency
                } by {
                    if m < moves0.len() {
                        assert(moves1[m] == moves0[m]);
                        assert(decisions@[m] == decisions_before[m]);
                    }
                }
            }
        }
        proof {
            let caps = self@.devices[j as int].capabilities@;
            assert(caps.take(ncaps as int) =~= caps);
            let devs = self@.devices;
            let target = devs[j as int];
            let moves = migrations(devs, target, caps);
            let moved = caps.filter(movable(devs, target));
            lemma_migrations_only_from_less_local(devs, target, caps);
            assert forall|m: int| 0 <= m < decisions@.len() implies moved_from_less_local(
                devs,
                target,
                moved[m],
                #[trigger] decisions@[m],
            ) by {
                let src = moves[m].1;
                assert(decisions@[m].reason@ == migration_reason(moves[m].0, devs[src].tier, target.tier));
                assert(moves[m].0 == moved[m]);
                assert(devs[src].online);
            }
        }
        decisions
    }

    /// The position of the first device from which `cap` work could come
    /// back to the device at position `j`.
    fn first_source(&self, j: usize, cap: Capability) -> (r: Option<usize>)
        requires
            j < self@.devices.len(),
        ensures
            r is None ==> forall|q: int|
                0 <= q < self@.devices.len() ==> !could_migrate(
                    #[trigger] self@.devices[q],
                    self@.devices[j as int],
                    cap,
                ),
            r matches Some(s) ==> is_first_source(self@.devices, s as int, self@.devices[j as int], cap),
    {
        let n = self.devices.len();
        let target = &self.devices[j];
        let mut o: usize = 0;
        while o < n
            invariant
                n == self@.devices.len(),
                j < n,
                *target == self@.devices[j as int],
                o <= n,
                forall|q: int| 0 <= q < o ==> !could_migrate(#[trigger] self@.devices[q], *target, cap),
            decreases n - o,
        {
            let other = &self.devices[o];
            if other.online && !(other.id == target.id) && other.tier.rank() > target.tier.rank()
                && has_capability(&other.capabilities, cap) {
                return Some(o);
            }
            o = o + 1;
        }
        None
    }

    /// Records a new load for the device with id `id`, capped at `FULL_LOAD`.
    pub fn update_load(&mut self, id: &str, new_load: u32)
        ensures
            final(self)@.valid(),
            final(self)@.preferences == old(self)@.preferences,
            old(self)@.has(id@) ==> final(self)@.devices == old(self)@.devices.update(
                old(self)@.index_of(id@),
                DeviceState {
                    current_load: if new_load > FULL_LOAD {
                        FULL_LOAD
                    } else {
                        new_load
                    },
                    ..old(self)@.devices[old(self)@.index_of(id@)]
                },
            ),
            !old(self)@.has(id@) ==> final(self)@.devices == old(self)@.devices,
    {
        let key = id.to_owned();
        if let Some(j) = self.position(&key) {
            let ghost pre = self@;
            let mut devs: Vec<DeviceState> = Vec::new();
            std::mem::swap(&mut devs, &mut self.devices);
            let mut d = devs.remove(j);
            d.current_load = if new_load > FULL_LOAD {
                FULL_LOAD
            } else {
                new_load
            };
            devs.insert(j, d);
            proof {
                assert(devs@ =~= pre.devices.update(j as int, d));
                assert forall|a: int, b: int|
                    0 <= a < devs@.len() && 0 <= b < devs@.len() && a != b
                        implies #[trigger] devs@[a].id@ != #[trigger] devs@[b].id@ by {
                    assert(devs@[a].id@ == pre.devices[a].id@);
                    assert(devs@[b].id@ == pre.devices[b].id@);
                }
            }
            self.devices = devs;
        }
    }

    /// The device with id `id`, if known.
    pub fn get_device(&self, id: &str) -> (r: Option<&DeviceState>)
        ensures
            match r {
                Some(d) => self@.lookup(id@) == Some(*d),
                None => self@.lookup(id@) is None,
            },
    {
        let key = id.to_owned();
        match self.position(&key) {
            Some(j) => Some(&self.devices[j]),
            None => None,
        }
    }
}

/// After a device is added, looking its id up finds exactly that device, and
/// every other id finds what it found before; ids stay unique.
pub proof fn lemma_add_then_lookup(v: RebalancerView, d: DeviceState, other: Seq<char>)
    requires
        v.valid(),
    ensures
        ({
            let post = RebalancerView { devices: v.with_added(d), ..v };
            &&& post.valid()
            &&& post.lookup(d.id@) == Some(d)
            &&& other != d.id@ ==> post.lookup(other) == v.lookup(other)
        }),
{
    let post = RebalancerView { devices: v.with_added(d), ..v };
    let n = v.devices.len();
    if v.has(d.id@) {
        let i = v.index_of(d.id@);
        assert(post.devices[i].id@ == d.id@);
        let c = post.index_of(d.id@);
        if c != i {
            assert(post.devices[c].id@ == v.devices[c].id@);
        }
    } else {
        assert(post.devices[n as int].id@ == d.id@);
        let c = post.index_of(d.id@);
        if c != n as int {
            assert(post.devices[c].id@ == v.devices[c].id@);
        }
    }
    assert forall|a: int, b: int|
        0 <= a < post.devices.len() && 0 <= b < post.devices.len() && a != b
            implies #[trigger] post.devices[a].id@ != #[trigger] post.devices[b].id@ by {
        if v.has(d.id@) {
            let i = v.index_of(d.id@);
            if a != i && b != i {
                assert(post.devices[a] == v.devices[a]);
                assert(post.devices[b] == v.devices[b]);
            } else if a == i {
                assert(post.devices[b] == v.devices[b]);
            } else {
                assert(post.devices[a] == v.devices[a]);
            }
        } else {
            if a < n && b < n {
                assert(post.devices[a] == v.devices[a]);
                assert(post.devices[b] == v.devices[b]);
            } else if a < n {
                assert(post.devices[a] == v.devices[a]);
            } else {
                assert(post.devices[b] == v.devices[b]);
            }
        }
    }
    if other != d.id@ {
        if v.has(other) {
            let i = v.index_of(other);
            let j = if v.has(d.id@) { v.index_of(d.id@) } else { n as int };
            assert(i != j);
            assert(post.devices[i] == v.devices[i]);
            assert(post.has(other));
            let c = post.index_of(other);
            if c != i {
                assert(post.devices[c].id@ != post.devices[i].id@);
            }
        } else if post.has(other) {
            let c = post.index_of(other);
            if c < n {
                assert(post.devices[c].id@ == v.devices[c].id@ || c == v.index_of(d.id@));
            }
        }
    }
}

/// After a device is removed, its id is no longer found, and every other id
/// finds what it found before.
pub proof fn lemma_remove_then_lookup(v: RebalancerView, id: Seq<char>, other: Seq<char>)
    requires
        v.valid(),
    ensures
        ({
            let post = RebalancerView { devices: v.with_removed(id), ..v };
            &&& post.lookup(id) is None
            &&& other != id ==> post.lookup(other) == v.lookup(other)
        }),
{
    let post = RebalancerView { devices: v.with_removed(id), ..v };
    if v.has(id) {
        let i = v.index_of(id);
        if post.has(id) {
            let c = post.index_of(id);
            let pc = if c < i { c } else { c + 1 };
            assert(post.devices[c] == v.devices[pc]);
        }
        if other != id {
            if v.has(other) {
                let o = v.index_of(other);
                let po = if o < i { o } else { o - 1 };
                assert(post.devices[po] == v.devices[o]);
                assert(post.has(other));
                let c = post.index_of(other);
                let pc = if c < i { c } else { c + 1 };
                assert(post.devices[c] == v.devices[pc]);
            } else if post.has(other) {
                let c = post.index_of(other);
                let pc = if c < i { c } else { c + 1 };
                assert(post.devices[c] == v.devices[pc]);
            }
        }
    }
}

/// The device picked for a task qualifies for it, and no qualifying device
/// ranks strictly better.
pub proof fn lemma_choice_is_best(
    devs: Seq<DeviceState>,
    i: int,
    j: int,
    req: TaskRequirements,
    prefs: UserPreferences,
)
    requires
        is_choice(devs, i, req, prefs),
        0 <= j < devs.len(),
        is_candidate(devs[j], req, prefs),
    ensures
        is_candidate(devs[i], req, prefs),
        rank_key(devs[i], prefs) <= rank_key(devs[j], prefs),
{
}

/// No replacement picked after a device went offline is that device.
pub proof fn lemma_offline_device_not_chosen(v: RebalancerView, id: Seq<char>, caps: Seq<Capability>)
    requires
        v.valid(),
        v.has(id),
    ensures
        ({
            let devs = v.with_online(id, false);
            let chosen = replacements(devs, caps, v.preferences);
            forall|k: int| 0 <= k < chosen.len() ==> #[trigger] chosen[k] != v.index_of(id)
        }),
    decreases caps.len(),
{
    let devs = v.with_online(id, false);
    if caps.len() > 0 {
        lemma_offline_device_not_chosen(v, id, caps.drop_last());
        let req = any_task(caps.last());
        let rest = replacements(devs, caps.drop_last(), v.preferences);
        let chosen = replacements(devs, caps, v.preferences);
        if exists|i: int| is_choice(devs, i, req, v.preferences) {
            let c = choose|i: int| is_choice(devs, i, req, v.preferences);
            let x = v.index_of(id);
            assert(v.devices[x].id@ == id);
            assert(!devs[x].online);
            assert(c != x);
            assert(chosen == rest.push(c));
            assert forall|k: int| 0 <= k < chosen.len() implies #[trigger] chosen[k] != x by {
                if k < rest.len() {
                    assert(chosen[k] == rest[k]);
                }
            }
        } else {
            assert(chosen == rest);
        }
    }
}

/// Every move proposed when a device comes back online names, as its
/// source, a device that is online, less local than the returning one, and
/// able to do the work being moved; capabilities are taken in order.
pub proof fn lemma_migration_sources_qualify(
    devs: Seq<DeviceState>,
    target: DeviceState,
    caps: Seq<Capability>,
)
    ensures
        ({
            let moves = migrations(devs, target, caps);
            forall|k: int|
                0 <= k < moves.len() ==> {
                    &&& 0 <= (#[trigger] moves[k]).1 < devs.len()
                    &&& could_migrate(devs[moves[k].1], target, moves[k].0)
                    &&& caps.contains(moves[k].0)
                }
        }),
    decreases caps.len(),
{
    if caps.len() > 0 {
        let rest_caps = caps.drop_last();
        lemma_migration_sources_qualify(devs, target, rest_caps);
        let rest = migrations(devs, target, rest_caps);
        let moves = migrations(devs, target, caps);
        let cap = caps.last();
        assert forall|k: int| 0 <= k < moves.len() implies {
            &&& 0 <= (#[trigger] moves[k]).1 < devs.len()
            &&& could_migrate(devs[moves[k].1], target, moves[k].0)
            &&& caps.contains(moves[k].0)
        } by {
            if k < rest.len() {
                assert(moves[k] == rest[k]);
                let i = choose|i: int| 0 <= i < rest_caps.len() && rest_caps[i] == rest[k].0;
                assert(caps[i] == rest_caps[i]);
            } else {
                let j = choose|j: int| is_first_source(devs, j, target, cap);
                assert(moves[k] == (cap, j));
                assert(caps[caps.len() - 1] == cap);
            }
        }
    }
}

/// The chosen device for a task is a candidate for it and is at least as
/// good as every other candidate: the cheapest (`cost_per_unit`) when the
/// user does not prefer local devices, the most local tier when they do;
/// among equally good candidates it is the first one known.
pub proof fn lemma_choice_is_cheapest_or_most_local(
    devs: Seq<DeviceState>,
    i: int,
    j: int,
    req: TaskRequirements,
    prefs: UserPreferences,
)
    requires
        is_choice(devs, i, req, prefs),
        0 <= j < devs.len(),
        is_candidate(devs[j], req, prefs),
    ensures
        0 <= i < devs.len(),
        devs[i].online,
        devs[i].capabilities@.contains(req.required_capability),
        devs[i].current_load < FULL_LOAD,
        !prefs.prefer_local ==> devs[i].cost_per_unit <= devs[j].cost_per_unit,
        !prefs.prefer_local && devs[i].cost_per_unit == devs[j].cost_per_unit ==> i <= j,
        prefs.prefer_local ==> tier_rank(devs[i].tier) <= tier_rank(devs[j].tier),
        prefs.prefer_local && tier_rank(devs[i].tier) == tier_rank(devs[j].tier) ==> i <= j,
{
}

/// Whether some device of `devs` could take a task that needs only `cap`.
pub open spec fn servable(devs: Seq<DeviceState>, prefs: UserPreferences) -> spec_fn(Capability) -> bool {
    |cap: Capability| exists|i: int| 0 <= i < devs.len() && #[trigger] is_candidate(devs[i], any_task(cap), prefs)
}

/// Whenever some device is a candidate, one of them is the choice.
proof fn lemma_candidate_gives_choice(devs: Seq<DeviceState>, req: TaskRequirements, prefs: UserPreferences, c: int)
    requires
        0 <= c < devs.len(),
        is_candidate(devs[c], req, prefs),
    ensures
        exists|i: int| is_choice(devs, i, req, prefs),
    decreases devs.len(),
{
    let n = devs.len();
    let front = devs.drop_last();
    if c == n - 1 {
        if exists|k: int| 0 <= k < front.len() && #[trigger] is_candidate(front[k], req, prefs) {
            let k = choose|k: int| 0 <= k < front.len() && #[trigger] is_candidate(front[k], req, prefs);
            lemma_candidate_gives_choice(front, req, prefs, k);
            let b = choose|i: int| is_choice(front, i, req, prefs);
            lemma_extend_choice(devs, b, req, prefs);
        } else {
            assert(is_choice(devs, c, req, prefs)) by {
                assert forall|j: int| 0 <= j < n && #[trigger] is_candidate(devs[j], req, prefs)
                    implies rank_key(devs[c], prefs) < rank_key(devs[j], prefs) || (rank_key(devs[c], prefs)
                    == rank_key(devs[j], prefs) && c <= j) by {
                    if j < n - 1 {
                        assert(front[j] == devs[j]);
                    }
                }
            }
        }
    } else {
        assert(front[c] == devs[c]);
        lemma_candidate_gives_choice(front, req, prefs, c);
        let b = choose|i: int| is_choice(front, i, req, prefs);
        lemma_extend_choice(devs, b, req, prefs);
    }
}

/// The choice among all but the last device, compared with the last one.
proof fn lemma_extend_choice(devs: Seq<DeviceState>, b: int, req: TaskRequirements, prefs: UserPreferences)
    requires
        devs.len() > 0,
        is_choice(devs.drop_last(), b, req, prefs),
    ensures
        exists|i: int| is_choice(devs, i, req, prefs),
{
    let n = devs.len();
    let front = devs.drop_last();
    let last = n - 1;
    assert(front[b] == devs[b]);
    if is_candidate(devs[last], req, prefs) && rank_key(devs[last], prefs) < rank_key(devs[b], prefs) {
        assert(is_choice(devs, last, req, prefs)) by {
            assert forall|j: int| 0 <= j < n && #[trigger] is_candidate(devs[j], req, prefs)
                implies rank_key(devs[last], prefs) < rank_key(devs[j], prefs) || (rank_key(devs[last], prefs)
                == rank_key(devs[j], prefs) && last <= j) by {
                if j < last {
                    assert(front[j] == devs[j]);
                    assert(is_candidate(front[j], req, prefs));
                }
            }
        }
    } else {
        assert(is_choice(devs, b, req, prefs)) by {
            assert forall|j: int| 0 <= j < n && #[trigger] is_candidate(devs[j], req, prefs)
                implies rank_key(devs[b], prefs) < rank_key(devs[j], prefs) || (rank_key(devs[b], prefs)
                == rank_key(devs[j], prefs) && b <= j) by {
                if j < last {
                    assert(front[j] == devs[j]);
                    assert(is_candidate(front[j], req, prefs));
                }
            }
        }
    }
}

/// After a device goes offline, every one of `caps` that some device could
/// still serve gets exactly one replacement, in order: the `m`-th decision
/// is the choice for the `m`-th servable capability, and there are as many
/// decisions as servable capabilities.
pub proof fn lemma_every_servable_capability_replaced(
    devs: Seq<DeviceState>,
    caps: Seq<Capability>,
    prefs: UserPreferences,
)
    ensures
        ({
            let chosen = replacements(devs, caps, prefs);
            let served = caps.filter(servable(devs, prefs));
            &&& chosen.len() == served.len()
            &&& forall|m: int|
                0 <= m < chosen.len() ==> is_choice(devs, #[trigger] chosen[m], any_task(served[m]), prefs)
        }),
    decreases caps.len(),
{
    reveal(Seq::filter);
    if caps.len() > 0 {
        let front = caps.drop_last();
        lemma_every_servable_capability_replaced(devs, front, prefs);
        let cap = caps.last();
        let req = any_task(cap);
        let rest = replacements(devs, front, prefs);
        let served_rest = front.filter(servable(devs, prefs));
        let chosen = replacements(devs, caps, prefs);
        let served = caps.filter(servable(devs, prefs));
        if servable(devs, prefs)(cap) {
            let c = choose|i: int| 0 <= i < devs.len() && #[trigger] is_candidate(devs[i], any_task(cap), prefs);
            lemma_candidate_gives_choice(devs, req, prefs, c);
            assert(chosen == rest.push(choose|i: int| is_choice(devs, i, req, prefs)));
            assert(served == served_rest.push(cap));
            assert forall|m: int| 0 <= m < chosen.len() implies is_choice(
                devs,
                #[trigger] chosen[m],
                any_task(served[m]),
                prefs,
            ) by {
                if m < rest.len() {
                    assert(chosen[m] == rest[m]);
                    assert(served[m] == served_rest[m]);
                }
            }
        } else {
            if exists|i: int| is_choice(devs, i, req, prefs) {
                let i = choose|i: int| is_choice(devs, i, req, prefs);
                assert(is_candidate(devs[i], any_task(cap), prefs));
            }
            assert(chosen == rest);
            assert(served == served_rest);
        }
    }
}

/// Whether some online device other than `target`, on a strictly less
/// local tier, can do `cap`.
pub open spec fn movable(devs: Seq<DeviceState>, target: DeviceState) -> spec_fn(Capability) -> bool {
    |cap: Capability|
        exists|j: int|
            0 <= j < devs.len() && (#[trigger] devs[j]).online && devs[j].id@ != target.id@
                && tier_rank(devs[j].tier) > tier_rank(target.tier) && devs[j].capabilities@.contains(cap)
}

/// When a device comes back online, work moves to it only from online
/// devices on a strictly less local tier that can do that work, one move
/// for each of its capabilities that such a device has, in order. So a
/// cloud device coming online is offered nothing.
pub proof fn lemma_migrations_only_from_less_local(
    devs: Seq<DeviceState>,
    target: DeviceState,
    caps: Seq<Capability>,
)
    ensures
        ({
            let moves = migrations(devs, target, caps);
            let movable_caps = caps.filter(movable(devs, target));
            &&& moves.len() == movable_caps.len()
            &&& forall|k: int|
                0 <= k < moves.len() ==> {
                    let src = (#[trigger] moves[k]).1;
                    &&& moves[k].0 == movable_caps[k]
                    &&& 0 <= src < devs.len()
                    &&& devs[src].online
                    &&& devs[src].id@ != target.id@
                    &&& tier_rank(devs[src].tier) > tier_rank(target.tier)
                    &&& devs[src].capabilities@.contains(moves[k].0)
                }
            &&& target.tier == DeviceTier::Cloud ==> moves.len() == 0
        }),
    decreases caps.len(),
{
    reveal(Seq::filter);
    let moves = migrations(devs, target, caps);
    if caps.len() > 0 {
        let front = caps.drop_last();
        lemma_migrations_only_from_less_local(devs, target, front);
        let cap = caps.last();
        let rest = migrations(devs, target, front);
        let movable_rest = front.filter(movable(devs, target));
        let movable_caps = caps.filter(movable(devs, target));
        if movable(devs, target)(cap) {
            let w = choose|j: int|
                0 <= j < devs.len() && (#[trigger] devs[j]).online && devs[j].id@ != target.id@
                    && tier_rank(devs[j].tier) > tier_rank(target.tier) && devs[j].capabilities@.contains(cap);
            lemma_first_source_exists(devs, target, cap, w);
            let s = choose|j: int| is_first_source(devs, j, target, cap);
            assert(moves == rest.push((cap, s)));
            assert(movable_caps == movable_rest.push(cap));
            assert forall|k: int| 0 <= k < moves.len() implies {
                let src = (#[trigger] moves[k]).1;
                &&& moves[k].0 == movable_caps[k]
                &&& 0 <= src < devs.len()
                &&& devs[src].online
                &&& devs[src].id@ != target.id@
                &&& tier_rank(devs[src].tier) > tier_rank(target.tier)
                &&& devs[src].capabilities@.contains(moves[k].0)
            } by {
                if k < rest.len() {
                    assert(moves[k] == rest[k]);
                    assert(movable_caps[k] == movable_rest[k]);
                }
            }
        } else {
            if exists|j: int| is_first_source(devs, j, target, cap) {
                let j = choose|j: int| is_first_source(devs, j, target, cap);
                assert(devs[j].online);
            }
            assert(moves == rest);
            assert(movable_caps == movable_rest);
        }
    }
    if target.tier == DeviceTier::Cloud && moves.len() > 0 {
        let src = moves[0].1;
        assert(tier_rank(devs[src].tier) > tier_rank(target.tier));
    }
}

/// Some device could hand `cap` work back to `target` exactly when a first
/// such device exists.
proof fn lemma_first_source_exists(devs: Seq<DeviceState>, target: DeviceState, cap: Capability, w: int)
    requires
        0 <= w < devs.len(),
        could_migrate(devs[w], target, cap),
    ensures
        exists|j: int| is_first_source(devs, j, target, cap),
    decreases w,
{
    if exists|k: int| 0 <= k < w && could_migrate(#[trigger] devs[k], target, cap) {
        let k = choose|k: int| 0 <= k < w && could_migrate(#[trigger] devs[k], target, cap);
        lemma_first_source_exists(devs, target, cap, k);
    } else {
        assert(is_first_source(devs, w, target, cap));
    }
}

} // verus!
