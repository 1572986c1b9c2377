use sluice::batch::{BatchAccumulator, BatchConfig};

#[test]
fn test_batch_size_trigger() {
    let config = BatchConfig {
        max_batch_size: 3,
        max_batch_delay_ms: 10_000,
    };
    let mut batch = BatchAccumulator::new(config);

    assert!(!batch.push(1));
    assert!(!batch.push(2));
    assert!(batch.push(3)); // Now ready

    let items = batch.drain();
    assert_eq!(items, vec![1, 2, 3]);
    assert!(batch.is_empty());
}

#[test]
fn test_batch_time_trigger() {
    let config = BatchConfig {
        max_batch_size: 100,
        max_batch_delay_ms: 10,
    };
    let mut batch = BatchAccumulator::new(config);

    batch.push_at(1, 1_000);
    assert!(!batch.is_ready_at(1_000));

    // 15 ms later the delay has passed.
    assert!(batch.is_ready_at(1_015));
}

#[test]
fn batch_time_until_ready_counts_down() {
    let config = BatchConfig::from_config(100, 5);
    let mut batch: BatchAccumulator<u32> = BatchAccumulator::new(config);
    assert_eq!(batch.time_until_ready_at(0), None);
    batch.push_at(7, 100);
    assert_eq!(batch.time_until_ready_at(102), Some(3));
    assert_eq!(batch.time_until_ready_at(105), Some(0));
    // A clock that went back counts as no time elapsed.
    assert_eq!(batch.time_until_ready_at(50), Some(5));
    assert_eq!(batch.len(), 1);
}

#[test]
fn batch_drain_starts_a_new_batch() {
    let mut batch = BatchAccumulator::new(BatchConfig::test_config());
    assert!(batch.push_at("a", 10));
    assert_eq!(batch.drain(), vec!["a"]);
    assert!(!batch.is_ready_at(1_000));
    assert_eq!(batch.time_until_ready(), None);
    assert!(batch.push_at("b", 2_000));
}

#[test]
fn batch_default_limits() {
    let config = BatchConfig::default();
    assert_eq!(config.max_batch_size, 100);
    assert_eq!(config.max_batch_delay_ms, 5);
}
