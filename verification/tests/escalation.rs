use std::time::Instant;
use tier_manager::escalation::DEFAULT_COOLDOWN_NANOS;
use tier_manager::{
    Capability, DeviceTier, EscalationChain, EscalationError, EscalationEvent, EscalationTier,
};

// Durations are in nanoseconds, costs in millionths of the currency unit.
const MILLI: u128 = 1_000_000;
const SECOND: u128 = 1_000_000_000;

fn test_tiers() -> Vec<EscalationTier> {
    vec![
        EscalationTier {
            tier: DeviceTier::Reflex,
            device_id: "esp-01".into(),
            capabilities: vec![Capability::Sense],
            cost_per_invocation: None,
            estimated_latency: 5 * MILLI,
        },
        EscalationTier {
            tier: DeviceTier::Backbone,
            device_id: "pi-01".into(),
            capabilities: vec![Capability::Sense, Capability::Predict],
            cost_per_invocation: None,
            estimated_latency: 50 * MILLI,
        },
        EscalationTier {
            tier: DeviceTier::Cortex,
            device_id: "jetson-01".into(),
            capabilities: vec![Capability::Predict, Capability::Train],
            cost_per_invocation: Some(1_000),
            estimated_latency: 200 * MILLI,
        },
        EscalationTier {
            tier: DeviceTier::Cloud,
            device_id: "cloud-01".into(),
            capabilities: vec![Capability::Train, Capability::Communicate],
            cost_per_invocation: Some(50_000),
            estimated_latency: 2 * SECOND,
        },
    ]
}

#[test]
fn new_chain_starts_at_first_tier() {
    let chain = EscalationChain::new(test_tiers());
    assert_eq!(chain.current().device_id, "esp-01");
    assert_eq!(chain.current().tier, DeviceTier::Reflex);
}

#[test]
fn trigger_escalates_one_tier() {
    let mut chain = EscalationChain::new(test_tiers()).with_cooldown(0);
    let tier = chain.trigger("sensor anomaly".into()).unwrap();
    assert_eq!(tier.tier, DeviceTier::Backbone);
    assert_eq!(chain.current().device_id, "pi-01");
}

#[test]
fn trigger_multiple_escalations() {
    let mut chain = EscalationChain::new(test_tiers()).with_cooldown(0);
    chain.trigger("first".into()).unwrap();
    chain.trigger("second".into()).unwrap();
    assert_eq!(chain.current().tier, DeviceTier::Cortex);
}

#[test]
fn trigger_max_tier_returns_error() {
    let mut chain = EscalationChain::new(test_tiers()).with_cooldown(0);
    chain.trigger("1".into()).unwrap();
    chain.trigger("2".into()).unwrap();
    chain.trigger("3".into()).unwrap();
    let err = chain.trigger("4".into()).unwrap_err();
    assert!(matches!(err, EscalationError::MaxTier));
}

#[test]
fn max_tier_generates_event() {
    let mut chain = EscalationChain::new(test_tiers()).with_cooldown(0);
    chain.trigger("1".into()).unwrap();
    chain.trigger("2".into()).unwrap();
    chain.trigger("3".into()).unwrap();
    let _ = chain.trigger("4".into());
    assert!(matches!(
        chain.events().last(),
        Some(EscalationEvent::MaxTier { .. })
    ));
}

#[test]
fn cooldown_blocks_escalation() {
    let mut chain = EscalationChain::new(test_tiers()).with_cooldown(600 * SECOND);
    chain.trigger("first".into()).unwrap();
    let err = chain.trigger("second".into()).unwrap_err();
    assert!(matches!(err, EscalationError::CooldownActive));
}

#[test]
fn cooldown_blocks_deescalation() {
    let mut chain = EscalationChain::new(test_tiers()).with_cooldown(600 * SECOND);
    chain.trigger("first".into()).unwrap();
    let err = chain.resolve().unwrap_err();
    assert!(matches!(err, EscalationError::CooldownActive));
}

#[test]
fn resolve_deescalates() {
    let mut chain = EscalationChain::new(test_tiers()).with_cooldown(0);
    chain.trigger("up".into()).unwrap();
    chain.resolve().unwrap();
    assert_eq!(chain.current().tier, DeviceTier::Reflex);
}

#[test]
fn resolve_at_bottom_errors() {
    let mut chain = EscalationChain::new(test_tiers());
    let err = chain.resolve().unwrap_err();
    assert!(matches!(err, EscalationError::MinTier));
}

#[test]
fn can_escalate_at_bottom() {
    let chain = EscalationChain::new(test_tiers()).with_cooldown(0);
    assert!(chain.can_escalate());
}

#[test]
fn can_escalate_false_at_top() {
    let mut chain = EscalationChain::new(test_tiers()).with_cooldown(0);
    chain.trigger("1".into()).unwrap();
    chain.trigger("2".into()).unwrap();
    chain.trigger("3".into()).unwrap();
    assert!(!chain.can_escalate());
}

#[test]
fn empty_tiers_errors() {
    let mut chain = EscalationChain::new(vec![]);
    assert!(matches!(
        chain.trigger("x".into()).unwrap_err(),
        EscalationError::NoTiers
    ));
    assert!(matches!(
        chain.resolve().unwrap_err(),
        EscalationError::NoTiers
    ));
    assert!(!chain.can_escalate());
}

#[test]
fn escalation_count_tracks() {
    let mut chain = EscalationChain::new(test_tiers()).with_cooldown(0);
    chain.trigger("1".into()).unwrap();
    chain.trigger("2".into()).unwrap();
    assert_eq!(chain.escalation_count("pi-01"), 1);
    assert_eq!(chain.escalation_count("jetson-01"), 1);
    assert_eq!(chain.escalation_count("esp-01"), 0);
}

#[test]
fn escalated_event_has_reason() {
    let mut chain = EscalationChain::new(test_tiers()).with_cooldown(0);
    chain.trigger("anomaly detected".into()).unwrap();
    if let Some(EscalationEvent::Escalated { reason, .. }) = chain.events().first() {
        assert_eq!(reason, "anomaly detected");
    } else {
        panic!("expected Escalated event");
    }
}

#[test]
fn resolve_undoes_trigger_and_records_both() {
    let mut chain = EscalationChain::new(test_tiers()).with_cooldown(0);
    chain.trigger("up".into()).unwrap();
    let back = chain.resolve().unwrap();
    assert_eq!(back.device_id, "esp-01");
    let events = chain.events();
    assert_eq!(events.len(), 2);
    match &events[0] {
        EscalationEvent::Escalated { from, to, reason } => {
            assert_eq!(*from, DeviceTier::Reflex);
            assert_eq!(*to, DeviceTier::Backbone);
            assert_eq!(reason, "up");
        }
        _ => panic!("expected Escalated event"),
    }
    match &events[1] {
        EscalationEvent::DeEscalated { from, to, reason } => {
            assert_eq!(*from, DeviceTier::Backbone);
            assert_eq!(*to, DeviceTier::Reflex);
            assert_eq!(reason, "resolved");
        }
        _ => panic!("expected DeEscalated event"),
    }
}

#[test]
fn explicit_clock_readings_decide_cooldown() {
    let mut chain = EscalationChain::new(test_tiers()).with_cooldown(10 * SECOND);
    let now = Instant::now();
    // never moved: any reading is fine
    assert!(chain.can_escalate_with_elapsed(0));
    chain.trigger_with_elapsed("first".into(), 0, now).unwrap();
    assert!(!chain.can_escalate_with_elapsed(10 * SECOND - 1));
    assert_eq!(
        chain.trigger_with_elapsed("too soon".into(), 10 * SECOND - 1, now).unwrap_err(),
        EscalationError::CooldownActive
    );
    assert!(chain.can_escalate_with_elapsed(10 * SECOND));
    assert_eq!(
        chain.trigger_with_elapsed("later".into(), 10 * SECOND, now).unwrap().device_id,
        "jetson-01"
    );
    assert_eq!(
        chain.resolve_with_elapsed(1, now).unwrap_err(),
        EscalationError::CooldownActive
    );
    assert_eq!(chain.resolve_with_elapsed(11 * SECOND, now).unwrap().device_id, "pi-01");
    // the refused moves left no event
    assert_eq!(chain.events().len(), 3);
}

#[test]
fn cooldown_runs_from_the_last_accepted_move() {
    let mut chain = EscalationChain::new(test_tiers()).with_cooldown(3600 * SECOND);
    let start = Instant::now();
    chain.trigger_with_elapsed("first".into(), 0, start).unwrap();
    // the last move is the one just recorded: a fresh reading is inside the cooldown
    assert_eq!(chain.trigger("second".into()).unwrap_err(), EscalationError::CooldownActive);
    assert_eq!(chain.resolve().unwrap_err(), EscalationError::CooldownActive);
    assert!(!chain.can_escalate());
}

#[test]
fn max_tier_event_names_top_tier_and_request() {
    let tiers = test_tiers();
    let mut chain = EscalationChain::new(vec![tiers[3].clone()]);
    assert_eq!(chain.trigger("stuck".into()).unwrap_err(), EscalationError::MaxTier);
    match chain.events().last() {
        Some(EscalationEvent::MaxTier { tier, unresolved }) => {
            assert_eq!(*tier, DeviceTier::Cloud);
            assert_eq!(unresolved, "stuck");
        }
        _ => panic!("expected MaxTier event"),
    }
    assert_eq!(chain.current().device_id, "cloud-01");
}

#[test]
fn default_cooldown_is_thirty_seconds() {
    assert_eq!(DEFAULT_COOLDOWN_NANOS, 30 * SECOND);
    let mut chain = EscalationChain::new(test_tiers());
    chain.trigger("first".into()).unwrap();
    assert_eq!(chain.trigger("second".into()).unwrap_err(), EscalationError::CooldownActive);
}

#[test]
fn counts_follow_repeated_visits() {
    let mut chain = EscalationChain::new(test_tiers()).with_cooldown(0);
    chain.trigger("1".into()).unwrap();
    chain.resolve().unwrap();
    chain.trigger("2".into()).unwrap();
    assert_eq!(chain.escalation_count("pi-01"), 2);
    assert_eq!(chain.escalation_count("unknown"), 0);
}

#[test]
fn room_for_another_escalation_count() {
    let mut chain = EscalationChain::new(test_tiers()).with_cooldown(0);
    assert!(chain.can_record_escalation());
    chain.trigger("1".into()).unwrap();
    chain.trigger("2".into()).unwrap();
    chain.trigger("3".into()).unwrap();
    // at the top no escalation is recorded, so nothing can overflow
    assert!(chain.can_record_escalation());
    assert!(EscalationChain::new(vec![]).can_record_escalation());
}
