//! End-to-end tests of the limiter over event batches: the drop-event and
//! drop-tag policies, per-key independence, and the one-time limit-reached
//! signal, in both tracking modes.

use tag_cardinality_limit::{
    default_cache_size, BloomFilterConfig, Event, LimitExceededAction, Mode, Signal,
    TagCardinalityLimit, TagCardinalityLimitConfig,
};

fn make_metric(tags: Vec<(&str, &str)>) -> Event {
    Event::with_tags(
        tags.into_iter().map(|(k, v)| (k.to_string(), v.to_string())).collect(),
    )
}

fn make_transform_hashset(
    value_limit: u32,
    limit_exceeded_action: LimitExceededAction,
) -> TagCardinalityLimitConfig {
    TagCardinalityLimitConfig { value_limit, limit_exceeded_action, mode: Mode::Exact }
}

fn make_transform_bloom(
    value_limit: u32,
    limit_exceeded_action: LimitExceededAction,
) -> TagCardinalityLimitConfig {
    TagCardinalityLimitConfig {
        value_limit,
        limit_exceeded_action,
        mode: Mode::Probabilistic(BloomFilterConfig {
            cache_size_per_key: default_cache_size(),
        }),
    }
}

fn drop_event(config: TagCardinalityLimitConfig) {
    let event1 = make_metric(vec![("tag1", "val1")]);
    let event2 = make_metric(vec![("tag1", "val2")]);
    let event3 = make_metric(vec![("tag1", "val3")]);

    let mut transform = TagCardinalityLimit::new(config);
    let (out, _signals) =
        transform.transform(vec![event1.clone(), event2.clone(), event3.clone()]);

    // Third value rejected since value_limit is 2.
    assert_eq!(out.len(), 2);
    assert_eq!(out[0], event1);
    assert_eq!(out[1], event2);
}

#[test]
fn tag_cardinality_limit_drop_event_hashset() {
    drop_event(make_transform_hashset(2, LimitExceededAction::DropEvent));
}

#[test]
fn tag_cardinality_limit_drop_event_bloom() {
    drop_event(make_transform_bloom(2, LimitExceededAction::DropEvent));
}

fn drop_tag(config: TagCardinalityLimitConfig) {
    let event1 = make_metric(vec![("tag1", "val1"), ("tag2", "val1")]);
    let event2 = make_metric(vec![("tag1", "val2"), ("tag2", "val1")]);
    let event3 = make_metric(vec![("tag1", "val3"), ("tag2", "val1")]);

    let mut transform = TagCardinalityLimit::new(config);
    let (out, _signals) =
        transform.transform(vec![event1.clone(), event2.clone(), event3.clone()]);

    assert_eq!(out.len(), 3);
    assert_eq!(out[0], event1);
    assert_eq!(out[1], event2);
    // The third event should have been modified to remove "tag1".
    assert_ne!(out[2], event3);
    let tags3 = out[2].tags.as_ref().unwrap();
    assert!(!tags3.iter().any(|(k, _)| k == "tag1"));
    assert_eq!(
        tags3.iter().find(|(k, _)| k == "tag2").map(|(_, v)| v.as_str()),
        Some("val1")
    );
}

#[test]
fn tag_cardinality_limit_drop_tag_hashset() {
    drop_tag(make_transform_hashset(2, LimitExceededAction::DropTag));
}

#[test]
fn tag_cardinality_limit_drop_tag_bloom() {
    drop_tag(make_transform_bloom(2, LimitExceededAction::DropTag));
}

/// Hitting the value limit on one tag does not affect the ability to take
/// new values for other tags.
fn separate_value_limit_per_tag(config: TagCardinalityLimitConfig) {
    let event1 = make_metric(vec![("tag1", "val1"), ("tag2", "val1")]);
    let event2 = make_metric(vec![("tag1", "val2"), ("tag2", "val1")]);
    // Now the value limit is reached for "tag1", but both of the third
    // event's values are already accepted.
    let event3 = make_metric(vec![("tag1", "val2")]);

    let mut transform = TagCardinalityLimit::new(config);
    let (out, _signals) =
        transform.transform(vec![event1.clone(), event2.clone(), event3.clone()]);

    assert_eq!(out.len(), 3);
    assert_eq!(out[0], event1);
    assert_eq!(out[1], event2);
    assert_eq!(out[2], event3);
}

#[test]
fn tag_cardinality_limit_separate_value_limit_per_tag_hashset() {
    separate_value_limit_per_tag(make_transform_hashset(2, LimitExceededAction::DropEvent));
}

#[test]
fn tag_cardinality_limit_separate_value_limit_per_tag_bloom() {
    separate_value_limit_per_tag(make_transform_bloom(2, LimitExceededAction::DropEvent));
}

/// A fresh value for a second key is still accepted after the first key's
/// limit is exhausted.
#[test]
fn exhausted_key_leaves_other_keys_untouched() {
    let mut transform =
        TagCardinalityLimit::new(make_transform_hashset(2, LimitExceededAction::DropEvent));
    for value in ["val1", "val2", "val3"] {
        let _ = transform.try_accept_tag(&"tag1".to_string(), &value.to_string());
    }
    assert_eq!(transform.accepted_count(&"tag1".to_string()), 2);
    let outcome = transform.try_accept_tag(&"tag2".to_string(), &"fresh".to_string());
    assert!(outcome.accepted);
}

/// The accepted count per key never exceeds the configured limit.
#[test]
fn count_never_exceeds_limit() {
    let mut transform =
        TagCardinalityLimit::new(make_transform_hashset(3, LimitExceededAction::DropTag));
    for value in ["a", "b", "c", "d", "e", "f"] {
        let _ = transform.try_accept_tag(&"key".to_string(), &value.to_string());
    }
    assert_eq!(transform.accepted_count(&"key".to_string()), 3);
    assert_eq!(transform.accepted_count(&"unseen".to_string()), 0);
}

/// Once a value is accepted for a key, every later occurrence of the same
/// pair is accepted, even after the key's limit is exhausted.
#[test]
fn acceptance_is_monotonic() {
    let mut transform =
        TagCardinalityLimit::new(make_transform_hashset(2, LimitExceededAction::DropTag));
    let key = "key".to_string();
    assert!(transform.try_accept_tag(&key, &"a".to_string()).accepted);
    assert!(transform.try_accept_tag(&key, &"b".to_string()).accepted);
    assert!(!transform.try_accept_tag(&key, &"c".to_string()).accepted);
    assert!(transform.try_accept_tag(&key, &"a".to_string()).accepted);
    assert!(transform.try_accept_tag(&key, &"b".to_string()).accepted);
}

/// The limit-reached outcome is signalled exactly once per key, at the
/// transition from below the limit to at the limit.
#[test]
fn limit_reached_fires_once_at_transition() {
    let mut transform =
        TagCardinalityLimit::new(make_transform_hashset(2, LimitExceededAction::DropTag));
    let key = "key".to_string();
    let first = transform.try_accept_tag(&key, &"a".to_string());
    assert!(first.accepted && !first.limit_reached);
    let second = transform.try_accept_tag(&key, &"b".to_string());
    assert!(second.accepted && second.limit_reached);
    let rejected = transform.try_accept_tag(&key, &"c".to_string());
    assert!(!rejected.accepted && !rejected.limit_reached);
    let repeat = transform.try_accept_tag(&key, &"b".to_string());
    assert!(repeat.accepted && !repeat.limit_reached);
}

/// The limit-reached signal also surfaces exactly once through the
/// event-level interface.
#[test]
fn limit_reached_signal_in_event_stream() {
    let mut transform =
        TagCardinalityLimit::new(make_transform_hashset(2, LimitExceededAction::DropTag));
    let events = vec![
        make_metric(vec![("tag1", "val1")]),
        make_metric(vec![("tag1", "val2")]),
        make_metric(vec![("tag1", "val3")]),
        make_metric(vec![("tag1", "val2")]),
    ];
    let (_out, signals) = transform.transform(events);
    let reached: Vec<&Signal> = signals
        .iter()
        .filter(|s| matches!(s, Signal::LimitReached { .. }))
        .collect();
    assert_eq!(reached.len(), 1);
    assert_eq!(*reached[0], Signal::LimitReached { key: "tag1".to_string() });
}

/// Untagged events pass through unchanged under either policy.
#[test]
fn untagged_events_pass_through() {
    let mut transform =
        TagCardinalityLimit::new(make_transform_hashset(1, LimitExceededAction::DropEvent));
    let (out, signals) = transform.transform(vec![Event::untagged()]);
    assert_eq!(out, vec![Event { tags: None }]);
    assert!(signals.is_empty());
}

/// Tags accepted before the rejecting one stay accepted even though their
/// event is discarded: the drop-event policy does not roll back.
#[test]
fn drop_event_keeps_earlier_acceptances() {
    let mut transform =
        TagCardinalityLimit::new(make_transform_hashset(1, LimitExceededAction::DropEvent));
    // Exhaust "tag1" with its single allowed value.
    let (out, _) = transform.transform(vec![make_metric(vec![("tag1", "a")])]);
    assert_eq!(out.len(), 1);
    // "tag2"'s value is accepted before "tag1" rejects the whole event.
    let (out, signals) =
        transform.transform(vec![make_metric(vec![("tag2", "b"), ("tag1", "z")])]);
    assert!(out.is_empty());
    assert!(signals.iter().any(|s| matches!(s, Signal::EventRejected { .. })));
    // The acceptance of ("tag2", "b") was durable.
    assert_eq!(transform.accepted_count(&"tag2".to_string()), 1);
    let repeat = transform.try_accept_tag(&"tag2".to_string(), &"b".to_string());
    assert!(repeat.accepted);
}

/// The rejection signals carry the offending key and value.
#[test]
fn rejection_signals_carry_the_pair() {
    let mut transform =
        TagCardinalityLimit::new(make_transform_hashset(1, LimitExceededAction::DropTag));
    let (_, _) = transform.transform(vec![make_metric(vec![("tag1", "a")])]);
    let (out, signals) = transform.transform(vec![make_metric(vec![("tag1", "b")])]);
    assert_eq!(
        signals,
        vec![Signal::TagRejected { key: "tag1".to_string(), value: "b".to_string() }]
    );
    assert_eq!(out, vec![Event { tags: Some(vec![]) }]);
}

/// Two pairs sharing a key within one event are processed independently,
/// and a rejection strips the whole key: the accepted pair goes with it.
#[test]
fn duplicate_key_within_event_is_stripped_whole() {
    let mut transform =
        TagCardinalityLimit::new(make_transform_hashset(1, LimitExceededAction::DropTag));
    let event = make_metric(vec![("tag1", "a"), ("tag1", "b"), ("tag2", "c")]);
    let (out, signals) = transform.transform(vec![event]);
    assert_eq!(out.len(), 1);
    // ("tag1", "a") was accepted, but ("tag1", "b") was rejected, so the
    // key "tag1" is removed wholesale; "tag2" survives.
    assert_eq!(out[0], make_metric(vec![("tag2", "c")]));
    assert!(signals
        .iter()
        .any(|s| *s == Signal::TagRejected { key: "tag1".to_string(), value: "b".to_string() }));
    // The acceptance of ("tag1", "a") was still durable.
    assert_eq!(transform.accepted_count(&"tag1".to_string()), 1);
}
