use vstd::prelude::*;

use crate::text::owned;

verus! {

/// Server settings. Every one of them can be given on the command line or in
/// the environment; these are the values the server runs with.
#[derive(Debug, Clone)]
pub struct Config {
    /// Host address to bind to.
    pub host: String,
    /// Port to listen on.
    pub port: u16,
    /// Directory of the database file.
    pub data_dir: String,
    /// Log level (trace, debug, info, warn, error).
    pub log_level: String,
    /// Bound of the writer's intake queue.
    pub write_channel_size: usize,
    /// Number of read-only connections.
    pub reader_pool_size: u32,
    /// Capacity of the notification bus.
    pub notify_channel_size: usize,
    /// Collector endpoint for exported metrics, if any.
    pub otel_endpoint: Option<String>,
    /// Most publishes per commit.
    pub batch_size: usize,
    /// Longest wait, in milliseconds, of a partial batch.
    pub batch_delay_ms: u64,
    /// Write-ahead log checkpoint threshold, in pages.
    pub wal_checkpoint_pages: i32,
    /// Whether the metrics endpoint is served.
    pub metrics_enabled: bool,
    /// Port of the metrics endpoint.
    pub metrics_port: u16,
}

impl Default for Config {
    fn default() -> (r: Self)
        ensures
            r.host@ == seq!['0', '.', '0', '.', '0', '.', '0'],
            r.port == 50051,
            r.data_dir@ == seq!['.', '/', 'd', 'a', 't', 'a'],
            r.log_level@ == seq!['i', 'n', 'f', 'o'],
            r.write_channel_size == 1000,
            r.reader_pool_size == 10,
            r.notify_channel_size == 1024,
            r.otel_endpoint is None,
            r.batch_size == 100,
            r.batch_delay_ms == 5,
            r.wal_checkpoint_pages == 1000,
            r.metrics_enabled,
            r.metrics_port == 9090,
    {
        proof {
            reveal_strlit("0.0.0.0");
            reveal_strlit("./data");
            reveal_strlit("info");
        }
        let host = owned("0.0.0.0");
        let data_dir = owned("./data");
        let log_level = owned("info");
        assert(host@ =~= seq!['0', '.', '0', '.', '0', '.', '0']);
        assert(data_dir@ =~= seq!['.', '/', 'd', 'a', 't', 'a']);
        assert(log_level@ =~= seq!['i', 'n', 'f', 'o']);
        Config {
            host,
            port: 50051,
            data_dir,
            log_level,
            write_channel_size: 1000,
            reader_pool_size: 10,
            notify_channel_size: 1024,
            otel_endpoint: None,
            batch_size: 100,
            batch_delay_ms: 5,
            wal_checkpoint_pages: 1000,
            metrics_enabled: true,
            metrics_port: 9090,
        }
    }
}

impl Config {
    /// Settings for tests: local host, any free port, small queues and
    /// batches, no metrics.
    pub fn test_config(data_dir: String) -> (r: Self)
        ensures
            r.host@ == seq!['1', '2', '7', '.', '0', '.', '0', '.', '1'],
            r.port == 0,
            r.data_dir@ == data_dir@,
            r.log_level@ == seq!['d', 'e', 'b', 'u', 'g'],
            r.write_channel_size == 100,
            r.reader_pool_size == 5,
            r.notify_channel_size == 256,
            r.otel_endpoint is None,
            r.batch_size == 10,
            r.batch_delay_ms == 1,
            r.wal_checkpoint_pages == 100,
            !r.metrics_enabled,
            r.metrics_port == 0,
    {
        proof {
            reveal_strlit("127.0.0.1");
            reveal_strlit("debug");
        }
        let host = owned("127.0.0.1");
        let log_level = owned("debug");
        assert(host@ =~= seq!['1', '2', '7', '.', '0', '.', '0', '.', '1']);
        assert(log_level@ =~= seq!['d', 'e', 'b', 'u', 'g']);
        Config {
            host,
            port: 0,
            data_dir,
            log_level,
            write_channel_size: 100,
            reader_pool_size: 5,
            notify_channel_size: 256,
            otel_endpoint: None,
            batch_size: 10,
            batch_delay_ms: 1,
            wal_checkpoint_pages: 100,
            metrics_enabled: false,
            metrics_port: 0,
        }
    }
}

} // verus!
