use tier_manager::text::{decimal_string, rounded_quotient};
use tier_manager::{Capability, DeviceTier};

#[test]
fn decimal_strings() {
    assert_eq!(decimal_string(0), "0");
    assert_eq!(decimal_string(7), "7");
    assert_eq!(decimal_string(10), "10");
    assert_eq!(decimal_string(100), "100");
    assert_eq!(decimal_string(u64::MAX), u64::MAX.to_string());
}

#[test]
fn rounding_to_nearest_even() {
    assert_eq!(rounded_quotient(125_000, 10_000), 12);
    assert_eq!(rounded_quotient(135_000, 10_000), 14);
    assert_eq!(rounded_quotient(125_001, 10_000), 13);
    assert_eq!(rounded_quotient(124_999, 10_000), 12);
    assert_eq!(rounded_quotient(u64::MAX, 2), u64::MAX / 2 + 1);
    assert_eq!(rounded_quotient(5, 1), 5);
}

#[test]
fn names_and_ranks() {
    assert_eq!(DeviceTier::Reflex.name(), "Reflex");
    assert_eq!(DeviceTier::Cloud.name(), "Cloud");
    assert_eq!(Capability::Communicate.name(), "Communicate");
    assert!(DeviceTier::Reflex.rank() < DeviceTier::Backbone.rank());
    assert!(DeviceTier::Backbone.rank() < DeviceTier::Cortex.rank());
    assert!(DeviceTier::Cortex.rank() < DeviceTier::Cloud.rank());
    assert!(DeviceTier::Reflex < DeviceTier::Cloud);
}
