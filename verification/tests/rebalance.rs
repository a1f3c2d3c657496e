use tier_manager::rebalance::FULL_LOAD;
use tier_manager::{
    Capability, DeviceState, DeviceTier, Rebalancer, TaskRequirements, UserPreferences,
};

// Loads are in parts per million, durations in nanoseconds, costs in
// millionths of the currency unit.
const MILLI: u128 = 1_000_000;
const SECOND: u128 = 1_000_000_000;

fn pi_device() -> DeviceState {
    DeviceState {
        id: "pi-01".into(),
        tier: DeviceTier::Backbone,
        online: true,
        current_load: 300_000,
        latency: 50 * MILLI,
        cost_per_unit: 0,
        capabilities: vec![Capability::Sense, Capability::Predict],
    }
}

fn jetson_device() -> DeviceState {
    DeviceState {
        id: "jetson-01".into(),
        tier: DeviceTier::Cortex,
        online: true,
        current_load: 500_000,
        latency: 200 * MILLI,
        cost_per_unit: 1_000,
        capabilities: vec![Capability::Predict, Capability::Train],
    }
}

fn cloud_device() -> DeviceState {
    DeviceState {
        id: "cloud-01".into(),
        tier: DeviceTier::Cloud,
        online: true,
        current_load: 100_000,
        latency: 2 * SECOND,
        cost_per_unit: 50_000,
        capabilities: vec![Capability::Train, Capability::Communicate],
    }
}

fn make_rebalancer() -> Rebalancer {
    let mut r = Rebalancer::new(UserPreferences {
        prefer_local: true,
        max_cloud_spend: 50_000_000,
        max_latency: 5 * SECOND,
        allow_degraded: false,
    });
    r.add_device(pi_device());
    r.add_device(jetson_device());
    r.add_device(cloud_device());
    r
}

#[test]
fn evaluate_picks_local_first() {
    let r = make_rebalancer();
    let req = TaskRequirements {
        required_capability: Capability::Predict,
        max_latency: None,
        max_cost: None,
    };
    let dec = r.evaluate(&req).unwrap();
    assert_eq!(dec.use_device, "pi-01");
}

#[test]
fn evaluate_picks_capability_match() {
    let r = make_rebalancer();
    let req = TaskRequirements {
        required_capability: Capability::Train,
        max_latency: None,
        max_cost: None,
    };
    let dec = r.evaluate(&req).unwrap();
    assert_eq!(dec.use_device, "jetson-01");
}

#[test]
fn evaluate_no_match_returns_none() {
    let r = make_rebalancer();
    let req = TaskRequirements {
        required_capability: Capability::Train,
        max_latency: Some(10 * MILLI),
        max_cost: None,
    };
    assert!(r.evaluate(&req).is_none());
}

#[test]
fn device_offline_triggers_rebalance() {
    let mut r = make_rebalancer();
    let decisions = r.device_went_offline("pi-01");
    assert!(!decisions.is_empty());
    assert!(!r.get_device("pi-01").unwrap().online);
}

#[test]
fn device_online_migrates_back() {
    let mut r = make_rebalancer();
    r.device_went_offline("pi-01");
    let decisions = r.device_came_online("pi-01");
    assert!(decisions.iter().any(|d| d.use_device == "pi-01"));
}

#[test]
fn update_load() {
    let mut r = make_rebalancer();
    r.update_load("pi-01", 950_000);
    assert!((r.get_device("pi-01").unwrap().current_load as i64 - 950_000).abs() < 1_000);
}

#[test]
fn full_load_device_skipped() {
    let mut r = make_rebalancer();
    r.update_load("pi-01", 1_000_000);
    let req = TaskRequirements {
        required_capability: Capability::Predict,
        max_latency: None,
        max_cost: None,
    };
    let dec = r.evaluate(&req).unwrap();
    assert_eq!(dec.use_device, "jetson-01");
}

#[test]
fn prefer_local_false_sorts_by_cost() {
    let mut r = Rebalancer::new(UserPreferences {
        prefer_local: false,
        max_cloud_spend: 50_000_000,
        max_latency: 5 * SECOND,
        allow_degraded: false,
    });
    r.add_device(pi_device());
    r.add_device(jetson_device());
    let req = TaskRequirements {
        required_capability: Capability::Predict,
        max_latency: None,
        max_cost: None,
    };
    let dec = r.evaluate(&req).unwrap();
    assert_eq!(dec.use_device, "pi-01");
}

#[test]
fn cost_filter_applied() {
    let r = make_rebalancer();
    let req = TaskRequirements {
        required_capability: Capability::Train,
        max_latency: None,
        max_cost: Some(10_000),
    };
    // jetson costs 1_000 (ok), cloud costs 50_000 (too much)
    // jetson should still be selected
    let dec = r.evaluate(&req).unwrap();
    assert_eq!(dec.use_device, "jetson-01");
}

#[test]
fn all_devices_offline_returns_none() {
    let mut r = make_rebalancer();
    r.device_went_offline("pi-01");
    r.device_went_offline("jetson-01");
    r.device_went_offline("cloud-01");
    let req = TaskRequirements {
        required_capability: Capability::Predict,
        max_latency: None,
        max_cost: None,
    };
    assert!(r.evaluate(&req).is_none());
}

#[test]
fn decision_carries_reason_cost_and_latency() {
    let r = make_rebalancer();
    let req = TaskRequirements {
        required_capability: Capability::Train,
        max_latency: None,
        max_cost: None,
    };
    let dec = r.evaluate(&req).unwrap();
    assert_eq!(dec.reason, "selected Cortex device (load: 50%)");
    assert_eq!(dec.estimated_cost, 1_000);
    assert_eq!(dec.estimated_latency, 200 * MILLI);
}

#[test]
fn load_percent_rounds_half_to_even() {
    let mut r = Rebalancer::new(UserPreferences::default());
    let mut d = pi_device();
    d.current_load = 125_000; // 12.5 %
    r.add_device(d);
    let req = TaskRequirements { required_capability: Capability::Sense, max_latency: None, max_cost: None };
    assert_eq!(r.evaluate(&req).unwrap().reason, "selected Backbone device (load: 12%)");
    r.update_load("pi-01", 135_000); // 13.5 %
    assert_eq!(r.evaluate(&req).unwrap().reason, "selected Backbone device (load: 14%)");
    r.update_load("pi-01", 999_999); // 99.9999 %
    assert_eq!(r.evaluate(&req).unwrap().reason, "selected Backbone device (load: 100%)");
    r.update_load("pi-01", 4_999); // 0.4999 %
    assert_eq!(r.evaluate(&req).unwrap().reason, "selected Backbone device (load: 0%)");
}

#[test]
fn update_load_is_capped_at_full() {
    let mut r = make_rebalancer();
    r.update_load("pi-01", 3_000_000);
    assert_eq!(r.get_device("pi-01").unwrap().current_load, FULL_LOAD);
    // unknown ids are ignored
    r.update_load("nobody", 5);
    assert!(r.get_device("nobody").is_none());
}

#[test]
fn add_replaces_same_id_and_remove_forgets() {
    let mut r = make_rebalancer();
    let mut pi = pi_device();
    pi.current_load = 700_000;
    r.add_device(pi);
    assert_eq!(r.get_device("pi-01").unwrap().current_load, 700_000);
    r.remove_device("pi-01");
    assert!(r.get_device("pi-01").is_none());
    assert!(r.get_device("jetson-01").is_some());
    r.remove_device("pi-01");
    assert!(r.get_device("cloud-01").is_some());
}

#[test]
fn ties_go_to_the_first_device_added() {
    let mut r = Rebalancer::new(UserPreferences::default());
    let mut a = pi_device();
    a.id = "pi-a".into();
    let mut b = pi_device();
    b.id = "pi-b".into();
    r.add_device(a);
    r.add_device(b);
    let req = TaskRequirements { required_capability: Capability::Predict, max_latency: None, max_cost: None };
    assert_eq!(r.evaluate(&req).unwrap().use_device, "pi-a");
}

#[test]
fn user_latency_limit_applies() {
    let mut r = make_rebalancer();
    r.device_went_offline("jetson-01");
    let mut slow = cloud_device();
    slow.latency = 6 * SECOND;
    r.add_device(slow);
    let req = TaskRequirements { required_capability: Capability::Train, max_latency: None, max_cost: None };
    assert!(r.evaluate(&req).is_none());
}

#[test]
fn offline_decisions_follow_capabilities_and_skip_the_device() {
    let mut r = make_rebalancer();
    let decisions = r.device_went_offline("pi-01");
    // Sense: nobody else; Predict: jetson
    assert_eq!(decisions.len(), 1);
    assert_eq!(decisions[0].use_device, "jetson-01");
    assert!(decisions.iter().all(|d| d.use_device != "pi-01"));
    assert!(r.device_went_offline("nobody").is_empty());
}

#[test]
fn online_migration_reasons_name_capability_and_tiers() {
    let mut r = make_rebalancer();
    r.device_went_offline("pi-01");
    let decisions = r.device_came_online("pi-01");
    assert_eq!(decisions.len(), 1);
    assert_eq!(decisions[0].use_device, "pi-01");
    assert_eq!(decisions[0].reason, "migrating Predict tasks from Cortex to Backbone (prefer local)");
    assert_eq!(decisions[0].estimated_cost, 0);
    assert_eq!(decisions[0].estimated_latency, 50 * MILLI);
    assert!(r.get_device("pi-01").unwrap().online);
}

#[test]
fn online_without_local_preference_proposes_nothing() {
    let mut r = Rebalancer::new(UserPreferences { prefer_local: false, ..UserPreferences::default() });
    r.add_device(pi_device());
    r.add_device(jetson_device());
    r.device_went_offline("pi-01");
    assert!(r.device_came_online("pi-01").is_empty());
    assert!(r.get_device("pi-01").unwrap().online);
}

#[test]
fn default_preferences() {
    let p = UserPreferences::default();
    assert!(p.prefer_local);
    assert_eq!(p.max_cloud_spend, 50_000_000);
    assert_eq!(p.max_latency, 5 * SECOND);
    assert!(!p.allow_degraded);
}
