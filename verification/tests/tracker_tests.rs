//! Tests of the per-key value tracker and of the configuration defaults.

use tag_cardinality_limit::{
    default_cache_size, default_limit_exceeded_action, default_value_limit, BloomFilterConfig,
    LimitExceededAction, Mode, TagCardinalityLimitConfig, TagValueSet,
};

#[test]
fn generate_config() {
    let config = TagCardinalityLimitConfig::default();
    assert_eq!(config.value_limit, default_value_limit());
    assert!(matches!(config.limit_exceeded_action, LimitExceededAction::DropTag));
    assert!(matches!(config.mode, Mode::Exact));
}

#[test]
fn default_values() {
    assert_eq!(default_value_limit(), 500);
    assert!(matches!(default_limit_exceeded_action(), LimitExceededAction::DropTag));
    assert_eq!(default_cache_size(), 5_120_000);
}

/// Exact storage has neither false positives nor false negatives.
#[test]
fn exact_tracker_membership_is_precise() {
    let mut tracker = TagValueSet::new(10, &Mode::Exact);
    assert_eq!(tracker.len(), 0);
    for value in ["a", "b", "c"] {
        let owned = value.to_string();
        assert!(!tracker.contains(&owned));
        assert!(tracker.insert(owned.clone()));
        assert!(tracker.contains(&owned));
    }
    assert_eq!(tracker.len(), 3);
    assert!(!tracker.contains(&"d".to_string()));
    assert!(!tracker.contains(&"ab".to_string()));
}

/// Probabilistic storage never forgets an inserted value, and its explicit
/// count tracks the insertions.
#[test]
fn bloom_tracker_has_no_false_negatives() {
    let mode = Mode::Probabilistic(BloomFilterConfig { cache_size_per_key: default_cache_size() });
    let mut tracker = TagValueSet::new(200, &mode);
    let values: Vec<String> = (0..100).map(|i| format!("value-{i}")).collect();
    for value in &values {
        if !tracker.contains(value) {
            tracker.insert(value.clone());
        }
    }
    for value in &values {
        assert!(tracker.contains(value));
    }
    assert_eq!(tracker.len(), 100);
}

/// A generously sized filter keeps unseen values apart from inserted ones:
/// the membership probe really consults what was inserted.
#[test]
fn bloom_tracker_distinguishes_unseen_values() {
    let mode = Mode::Probabilistic(BloomFilterConfig { cache_size_per_key: default_cache_size() });
    let mut tracker = TagValueSet::new(10, &mode);
    for value in ["alpha", "beta"] {
        let owned = value.to_string();
        assert!(!tracker.contains(&owned));
        tracker.insert(owned);
    }
    // With a cache of about five megabytes and two entries, a false
    // positive on these probes would be astronomically unlikely.
    assert!(!tracker.contains(&"gamma".to_string()));
    assert!(!tracker.contains(&"delta".to_string()));
    assert_eq!(tracker.len(), 2);
}

/// Over many probes of unseen values, the measured false-positive rate
/// stays bounded by the configured bit-array size and hash count: small for
/// a filter loaded to its expected element count, though the double-hashing
/// scheme lands above the textbook rate. The probe is seeded per run, so
/// the bound carries ample slack.
#[test]
fn bloom_false_positive_rate_within_bound() {
    // 1024 bytes make 8192 bits; at the expected load of 500 entries a few
    // per cent of unseen values may collide, but no more.
    let mode = Mode::Probabilistic(BloomFilterConfig { cache_size_per_key: 1024 });
    let mut tracker = TagValueSet::new(500, &mode);
    for i in 0..500 {
        let value = format!("inserted-{i}");
        if !tracker.contains(&value) {
            tracker.insert(value);
        }
    }
    let probes = 2000;
    let mut false_positives = 0;
    for i in 0..probes {
        if tracker.contains(&format!("unseen-{i}")) {
            false_positives += 1;
        }
    }
    let rate = f64::from(false_positives) / f64::from(probes);
    assert!(rate < 0.05, "false positive rate {rate} out of bounds");
}
