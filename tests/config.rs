use sluice::config::Config;

#[test]
fn test_default_config() {
    let config = Config::default();
    assert_eq!(config.port, 50051);
    assert_eq!(config.host, "0.0.0.0");
}

#[test]
fn default_config_matches_documented_defaults() {
    let config = Config::default();
    assert_eq!(config.data_dir, "./data");
    assert_eq!(config.write_channel_size, 1000);
    assert_eq!(config.reader_pool_size, 10);
    assert_eq!(config.notify_channel_size, 1024);
    assert_eq!(config.batch_size, 100);
    assert_eq!(config.batch_delay_ms, 5);
    assert_eq!(config.wal_checkpoint_pages, 1000);
    assert!(config.metrics_enabled);
    assert_eq!(config.metrics_port, 9090);
}

#[test]
fn test_config_is_small_and_local() {
    let config = Config::test_config("/tmp/sluice-test".to_string());
    assert_eq!(config.host, "127.0.0.1");
    assert_eq!(config.port, 0);
    assert_eq!(config.data_dir, "/tmp/sluice-test");
    assert_eq!(config.batch_size, 10);
    assert!(!config.metrics_enabled);
}
