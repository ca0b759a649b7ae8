use std::time::Duration;

use tracepipe::batch::{BatchConfig, RetryConfig};

#[test]
fn backoff_grows_and_caps() {
    let retry = RetryConfig {
        max_attempts: 10,
        initial_backoff: Duration::from_millis(100),
        max_backoff: Duration::from_secs(1),
    };
    assert_eq!(retry.backoff(1), Duration::from_millis(100));
    assert_eq!(retry.backoff(2), Duration::from_millis(200));
    assert_eq!(retry.backoff(3), Duration::from_millis(400));
    assert_eq!(retry.backoff(9), Duration::from_secs(1));
}

#[test]
fn backoff_stops_doubling_after_sixteen_attempts() {
    let retry = RetryConfig {
        max_attempts: 100,
        initial_backoff: Duration::from_millis(1),
        max_backoff: Duration::from_secs(1_000_000),
    };
    assert_eq!(retry.backoff(16), Duration::from_millis(32_768));
    assert_eq!(retry.backoff(17), Duration::from_millis(32_768));
    assert_eq!(retry.backoff(usize::MAX), Duration::from_millis(32_768));
}

#[test]
fn a_wait_too_long_to_count_is_capped() {
    let retry = RetryConfig {
        max_attempts: 100,
        initial_backoff: Duration::from_secs(u64::MAX),
        max_backoff: Duration::MAX,
    };
    assert_eq!(retry.backoff(3), Duration::MAX);
}

#[test]
fn defaults_of_batches_and_retries() {
    let batch = BatchConfig::default();
    assert_eq!(batch.max_events, 10_000);
    assert_eq!(batch.max_bytes, 8 * 1024 * 1024);
    assert_eq!(batch.timeout, Duration::from_secs(1));
    let retry = RetryConfig::default();
    assert_eq!(retry.max_attempts, 5);
    assert_eq!(retry.initial_backoff, Duration::from_millis(500));
    assert_eq!(retry.max_backoff, Duration::from_secs(30));
}

#[test]
fn limits_of_a_batch_are_at_least_one() {
    let batch = BatchConfig::default()
        .max_events(0)
        .max_bytes(0)
        .timeout(Duration::from_millis(50));
    assert_eq!(batch.max_events, 1);
    assert_eq!(batch.max_bytes, 1);
    assert_eq!(batch.timeout, Duration::from_millis(50));
    assert_eq!(BatchConfig::default().max_events(7).max_events, 7);
}
