use sluice::registry::{ConnectionRegistry, ConsumerGroupKey};

fn key(topic_id: i64, group: &str) -> ConsumerGroupKey {
    ConsumerGroupKey {
        topic_id,
        consumer_group: group.to_string(),
    }
}

#[test]
fn test_register_unregister() {
    let mut registry = ConnectionRegistry::new();
    let key = key(1, "test");

    let reg = registry.register(key.clone());
    assert_eq!(registry.active_count(), 1);

    registry.unregister(&key, reg.token);
    assert_eq!(registry.active_count(), 0);
}

#[test]
fn test_takeover_signals_prior_connection() {
    let mut registry = ConnectionRegistry::new();
    let key = key(1, "workers");

    let mut first = registry.register(key.clone());
    let _second = registry.register(key.clone());

    assert!(
        first.cancelled.try_recv().is_ok(),
        "Prior connection should receive termination signal"
    );
    assert_eq!(registry.active_count(), 1);
}

#[test]
fn test_different_groups_independent() {
    let mut registry = ConnectionRegistry::new();
    let mut a = registry.register(key(1, "group-a"));
    let _b = registry.register(key(1, "group-b"));
    assert_eq!(registry.active_count(), 2);
    assert!(a.cancelled.try_recv().is_err());
}

#[test]
fn test_different_topics_independent() {
    let mut registry = ConnectionRegistry::new();
    let _a = registry.register(key(1, "workers"));
    let _b = registry.register(key(2, "workers"));
    assert_eq!(registry.active_count(), 2);
}

#[test]
fn tokens_grow_and_displacement_is_reported() {
    let mut registry = ConnectionRegistry::new();
    let a = registry.register(key(1, "g"));
    let b = registry.register(key(1, "g"));
    assert!(b.token > a.token);
    assert_eq!(a.displaced, None);
    assert_eq!(b.displaced, Some(a.token));
    assert!(!registry.unregister(&key(1, "g"), a.token));
    assert!(!registry.unregister(&key(1, "h"), b.token));
    assert!(registry.unregister(&key(1, "g"), b.token));
}
