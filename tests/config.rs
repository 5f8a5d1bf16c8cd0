use std::time::Duration;
use tk_carbon::{from_ms, to_ms, Config};

#[test]
fn defaults() {
    let c = Config::new();
    assert_eq!(c.write_timeout, Duration::from_secs(10));
    assert_eq!(c.watermarks, (60_000, 1_048_576));
    assert_eq!(c.max_metrics_buffered, 10_000);
    assert_eq!(c.reconnect_delay, (50, 150));
}

#[test]
fn to_ms_counts_whole_milliseconds() {
    assert_eq!(to_ms(Duration::from_millis(1500)), 1500);
    assert_eq!(to_ms(Duration::new(2, 999_999)), 2000);
    assert_eq!(to_ms(Duration::from_millis(0)), 0);
}

#[test]
fn to_ms_saturates() {
    assert_eq!(to_ms(Duration::from_secs(u64::MAX)), u64::MAX);
}

#[test]
fn from_ms_round_trip() {
    assert_eq!(from_ms(1234), Duration::from_millis(1234));
    assert_eq!(to_ms(from_ms(98_765)), 98_765);
}

#[test]
fn reconnect_delay_half_to_one_and_a_half() {
    let mut c = Config::new();
    c.reconnect_delay(Duration::from_millis(100));
    assert_eq!(c.reconnect_delay, (50, 150));
    c.reconnect_delay(Duration::from_millis(3));
    assert_eq!(c.reconnect_delay, (1, 4));
}

#[test]
fn builder_chain() {
    let mut c = Config::new();
    c.reconnect_delay_min_max(Duration::from_millis(100), Duration::from_millis(200))
        .watermarks(10, 20)
        .max_metrics_buffered(2)
        .write_timeout(Duration::from_secs(3));
    assert_eq!(c.reconnect_delay, (100, 200));
    assert_eq!(c.watermarks, (10, 20));
    assert_eq!(c.max_metrics_buffered, 2);
    assert_eq!(c.write_timeout, Duration::from_secs(3));
    let shared = c.done();
    assert_eq!(shared.watermarks, (10, 20));
    assert_eq!(shared.reconnect_delay, (100, 200));
}
