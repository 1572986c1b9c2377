use sluice::notify::NotificationBus;

#[test]
fn test_notification_bus() {
    let bus = NotificationBus::new(16);
    let mut rx1 = bus.subscribe();
    let mut rx2 = bus.subscribe();

    let count = bus.notify(1, 42);
    assert_eq!(count, 2);

    let n1 = rx1.try_recv().unwrap();
    assert_eq!(n1.topic_id, 1);
    assert_eq!(n1.max_seq, 42);

    let n2 = rx2.try_recv().unwrap();
    assert_eq!(n2.topic_id, 1);
    assert_eq!(n2.max_seq, 42);
}

#[test]
fn test_notification_without_receivers() {
    let bus = NotificationBus::new(16);

    // No receivers - should not panic
    let count = bus.notify(1, 42);
    assert_eq!(count, 0);
}

#[test]
fn bus_counts_receivers() {
    let bus = NotificationBus::default();
    assert_eq!(bus.receiver_count(), 0);
    let _rx = bus.subscribe();
    let copy = bus.clone();
    assert_eq!(copy.receiver_count(), 1);
}
