use vstd::prelude::*;

verus! {

/// The level of hardware a task can run on, from the closest to the sensor
/// (`Reflex`) up to remote compute (`Cloud`).
#[derive(Debug, Clone, Copy, PartialEq, Eq, Structural, Hash, PartialOrd, Ord)]
pub enum DeviceTier {
    Reflex,
    Backbone,
    Cortex,
    Cloud,
}

/// What a device is able to do for a task.
#[derive(Debug, Clone, Copy, PartialEq, Eq, Structural, Hash)]
pub enum Capability {
    Sense,
    Predict,
    Train,
    Communicate,
}

/// Position of a tier in the escalation order: lower is more local.
pub open spec fn tier_rank(t: DeviceTier) -> nat {
    match t {
        DeviceTier::Reflex => 0,
        DeviceTier::Backbone => 1,
        DeviceTier::Cortex => 2,
        DeviceTier::Cloud => 3,
    }
}

impl DeviceTier {
    /// Position of the tier in the escalation order.
    pub fn rank(&self) -> (r: u8)
        ensures
            r == tier_rank(*self),
    {
        match self {
            DeviceTier::Reflex => 0,
            DeviceTier::Backbone => 1,
            DeviceTier::Cortex => 2,
            DeviceTier::Cloud => 3,
        }
    }
}

/// The name of a tier as it appears in messages.
pub open spec fn tier_name(t: DeviceTier) -> Seq<char> {
    match t {
        DeviceTier::Reflex => "Reflex"@,
        DeviceTier::Backbone => "Backbone"@,
        DeviceTier::Cortex => "Cortex"@,
        DeviceTier::Cloud => "Cloud"@,
    }
}

/// The name of a capability as it appears in messages.
pub open spec fn capability_name(c: Capability) -> Seq<char> {
    match c {
        Capability::Sense => "Sense"@,
        Capability::Predict => "Predict"@,
        Capability::Train => "Train"@,
        Capability::Communicate => "Communicate"@,
    }
}

impl DeviceTier {
    /// The name of the tier as it appears in messages.
    pub fn name(&self) -> (r: &'static str)
        ensures
            r@ == tier_name(*self),
    {
        match self {
            DeviceTier::Reflex => "Reflex",
            DeviceTier::Backbone => "Backbone",
            DeviceTier::Cortex => "Cortex",
            DeviceTier::Cloud => "Cloud",
        }
    }
}

impl Capability {
    /// The name of the capability as it appears in messages.
    pub fn name(&self) -> (r: &'static str)
        ensures
            r@ == capability_name(*self),
    {
        match self {
            Capability::Sense => "Sense",
            Capability::Predict => "Predict",
            Capability::Train => "Train",
            Capability::Communicate => "Communicate",
        }
    }
}

} // verus!
