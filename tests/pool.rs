use std::time::Duration;
use tk_carbon::channel::channel;
use tk_carbon::pool::{Addr, Pool, State, DAY_MS};
use tk_carbon::proto::{Proto, ReadEvent, Step};
use tk_carbon::Config;

fn addr(last: u8) -> Addr {
    Addr { ip: u128::from(u32::from_be_bytes([10, 0, 0, last])), v6: false, port: 2003 }
}

fn connected_pool(config: &Config, now: u64) -> Pool {
    let mut pool = Pool::new(config);
    pool.update_addresses(vec![addr(1)]);
    let id = pool.conns[0].id;
    assert!(pool.connected(id, now));
    pool
}

#[test]
fn happy_path_single_address() {
    let config = Config::new();
    let mut pool = Pool::new(&config);
    pool.update_addresses(vec![addr(1)]);
    assert_eq!(pool.conns.len(), 1);
    assert_eq!(pool.conns[0].state, State::Pending);
    let id = pool.conns[0].id;
    assert!(pool.connected(id, 1000));
    assert_eq!(pool.conns[0].state, State::Normal);
    assert_eq!(pool.conns[0].deadline, 1000 + DAY_MS);

    let mut ch = channel(config.max_metrics_buffered);
    assert_eq!(ch.add_value_at(b"m", b"5", 100), Some(true));
    assert!(pool.new_metrics(&mut ch));
    assert_eq!(pool.conns[0].out, b"m 5 100\n".to_vec());
    pool.flushed(0, 8, 1001, 100);
    assert!(pool.conns[0].out.is_empty());
    assert_eq!(pool.conns[0].deadline, 1001 + DAY_MS);
    assert_eq!(pool.conns[0].state, State::Normal);
}

#[test]
fn dns_rotation_retires_and_holds_metrics() {
    let config = Config::new();
    let mut pool = connected_pool(&config, 0);
    let mut ch = channel(config.max_metrics_buffered);
    ch.add_value_at(b"m", b"1", 1);
    assert!(pool.new_metrics(&mut ch));

    pool.update_addresses(vec![addr(2)]);
    assert_eq!(pool.conns.len(), 1);
    assert_eq!(pool.conns[0].addr, addr(2));
    assert_eq!(pool.conns[0].state, State::Pending);
    assert_eq!(pool.retired.len(), 1);
    assert_eq!(pool.retired[0].addr, addr(1));

    ch.add_value_at(b"m", b"2", 2);
    assert!(!pool.new_metrics(&mut ch));
    assert_eq!(ch.buffered().0, 1);
    assert_eq!(pool.retired[0].out, b"m 1 1\n".to_vec());

    assert!(!pool.flush_retired(0, 2, 5));
    assert_eq!(pool.retired[0].out, b"1 1\n".to_vec());
    assert!(pool.flush_retired(0, 4, 6));
    assert!(pool.retired.is_empty());

    let id = pool.conns[0].id;
    assert!(pool.connected(id, 7));
    assert!(pool.new_metrics(&mut ch));
    assert_eq!(pool.conns[0].out, b"m 2 2\n".to_vec());
}

#[test]
fn reconnect_with_jitter() {
    let mut config = Config::new();
    config.reconnect_delay_min_max(Duration::from_millis(100), Duration::from_millis(200));
    for _ in 0..50 {
        let mut pool = Pool::new(&config);
        pool.update_addresses(vec![addr(1)]);
        let id = pool.conns[0].id;
        let d = pool.draw_delay();
        assert!((100..=200).contains(&d));
        assert!(pool.connect_failed(id, 10_000, d));
        let t = match pool.conns[0].state {
            State::Failed(t) => t,
            s => panic!("unexpected state {:?}", s),
        };
        assert!((10_100..=10_200).contains(&t));
        assert_eq!(pool.next_deadline(10_000), t);
        pool.reconnect_failed(t - 1);
        assert_eq!(pool.conns[0].state, State::Failed(t));
        pool.reconnect_failed(t);
        assert_eq!(pool.conns[0].state, State::Pending);
        assert_ne!(pool.conns[0].id, id);
    }
}

#[test]
fn watermark_pressure() {
    let mut config = Config::new();
    config.watermarks(10, 20);
    let mut pool = connected_pool(&config, 0);
    let mut ch = channel(config.max_metrics_buffered);
    ch.add_value_at(b"a", b"1", 0);
    ch.add_value_at(b"a", b"1", 0);
    assert!(pool.new_metrics(&mut ch));
    pool.flushed(0, 0, 1, 100);
    assert_eq!(pool.conns[0].out.len(), 12);
    assert_eq!(pool.conns[0].state, State::Crowded);

    ch.add_value_at(b"a", b"1", 0);
    assert!(!pool.new_metrics(&mut ch));
    assert_eq!(ch.buffered().0, 1);

    pool.flushed(0, 6, 2, 100);
    assert_eq!(pool.conns[0].state, State::Normal);
    assert!(pool.new_metrics(&mut ch));
    ch.add_value_at(b"a", b"1", 0);
    ch.add_value_at(b"a", b"1", 0);
    ch.add_value_at(b"a", b"1", 0);
    assert!(pool.new_metrics(&mut ch));
    assert_eq!(pool.conns[0].out.len(), 30);
    pool.flushed(0, 0, 3, 100);
    assert_eq!(pool.conns[0].state, State::Failed(103));
    assert!(pool.conns[0].out.is_empty());
}

#[test]
fn multicast_to_normal_and_crowded_only() {
    let mut config = Config::new();
    config.watermarks(5, 100);
    let mut pool = Pool::new(&config);
    pool.update_addresses(vec![addr(1), addr(2), addr(3)]);
    let ids: Vec<u64> = pool.conns.iter().map(|c| c.id).collect();
    assert!(pool.connected(ids[0], 0));
    assert!(pool.connected(ids[1], 0));
    let mut ch = channel(10);
    ch.add_value_at(b"a", b"1", 0);
    assert!(pool.new_metrics(&mut ch));
    pool.flushed(1, 0, 1, 100);
    assert_eq!(pool.conns[1].state, State::Crowded);
    ch.add_value_at(b"b", b"2", 0);
    assert!(pool.new_metrics(&mut ch));
    assert_eq!(pool.conns[0].out, b"a 1 0\nb 2 0\n".to_vec());
    assert_eq!(pool.conns[1].out, b"a 1 0\nb 2 0\n".to_vec());
    assert!(pool.conns[2].out.is_empty());
    assert_eq!(pool.conns[2].state, State::Pending);
}

#[test]
fn one_connection_per_address() {
    let config = Config::new();
    let mut pool = Pool::new(&config);
    pool.update_addresses(vec![addr(1), addr(2), addr(1)]);
    assert_eq!(pool.conns.len(), 2);
    let id1 = pool.conns[0].id;
    assert!(pool.connected(id1, 0));
    pool.update_addresses(vec![addr(3), addr(1)]);
    let addrs: Vec<Addr> = pool.conns.iter().map(|c| c.addr).collect();
    assert_eq!(addrs, vec![addr(1), addr(3)]);
    assert_eq!(pool.conns[0].id, id1);
    assert_eq!(pool.conns[0].state, State::Normal);
    assert!(pool.retired.is_empty());
}

#[test]
fn failed_entries_of_removed_addresses_are_dropped() {
    let config = Config::new();
    let mut pool = Pool::new(&config);
    pool.update_addresses(vec![addr(1)]);
    let id = pool.conns[0].id;
    assert!(pool.connect_failed(id, 0, 50));
    pool.update_addresses(vec![addr(2)]);
    assert_eq!(pool.conns.len(), 1);
    assert_eq!(pool.conns[0].addr, addr(2));
    assert!(pool.retired.is_empty());
}

#[test]
fn unknown_id_changes_nothing() {
    let config = Config::new();
    let mut pool = Pool::new(&config);
    pool.update_addresses(vec![addr(1)]);
    assert!(!pool.connected(99, 0));
    assert!(!pool.connect_failed(99, 0, 50));
    assert_eq!(pool.conns[0].state, State::Pending);
}

#[test]
fn write_timeout_fails_connection() {
    let mut config = Config::new();
    config.write_timeout(Duration::from_millis(500));
    let mut pool = connected_pool(&config, 0);
    let mut ch = channel(10);
    ch.add_value_at(b"m", b"1", 0);
    assert!(pool.new_metrics(&mut ch));
    pool.flushed(0, 1, 100, 100);
    assert_eq!(pool.conns[0].deadline, 600);
    pool.flushed(0, 0, 600, 100);
    assert_eq!(pool.conns[0].state, State::Normal);
    pool.flushed(0, 0, 601, 100);
    assert_eq!(pool.conns[0].state, State::Failed(701));
}

#[test]
fn socket_failure_fails_connection() {
    let config = Config::new();
    let mut pool = connected_pool(&config, 0);
    pool.socket_failed(0, 5, 120);
    assert_eq!(pool.conns[0].state, State::Failed(125));
    assert!(pool.conns[0].out.is_empty());
}

#[test]
fn next_deadline_without_work_is_a_day_away() {
    let config = Config::new();
    let pool = Pool::new(&config);
    assert_eq!(pool.next_deadline(5), 5 + DAY_MS);
    assert_eq!(pool.next_deadline(u64::MAX - 1), u64::MAX);
}

#[test]
fn graceful_shutdown() {
    let config = Config::new();
    let mut pool = connected_pool(&config, 0);
    let mut ch = channel(10);
    for i in 0..3u64 {
        ch.add_value_at(b"m", b"1", i);
    }
    ch.remove_sender();
    assert!(!pool.finished(&ch));
    assert!(pool.new_metrics(&mut ch));
    assert!(!pool.finished(&ch));
    let n = pool.conns[0].out.len();
    assert_eq!(n, 18);
    pool.flushed(0, n, 1, 100);
    assert!(pool.finished(&ch));
}

#[test]
fn proto_fill_stops_at_low_watermark() {
    let mut config = Config::new();
    config.watermarks(10, 20);
    let mut proto = Proto::new(&config, 0);
    let mut ch = channel(10);
    for i in 0..4u64 {
        ch.add_value_at(b"a", b"1", i);
    }
    assert_eq!(proto.fill(&mut ch), 2);
    assert_eq!(proto.out, b"a 1 0\na 1 1\n".to_vec());
    assert_eq!(ch.buffered().0, 2);
    assert!(proto.flushed(6, 5));
    assert_eq!(proto.out, b"a 1 1\n".to_vec());
    assert!(proto.flushed(0, 5 + 10_000));
    assert!(!proto.flushed(0, 5 + 10_001));
}

#[test]
fn proto_finishes_when_drained() {
    let config = Config::new();
    let mut proto = Proto::new(&config, 0);
    let mut ch = channel(10);
    ch.add_value_at(b"a", b"1", 0);
    ch.remove_sender();
    assert!(!proto.finished(&ch));
    assert_eq!(proto.fill(&mut ch), 1);
    let n = proto.out.len();
    assert!(proto.flushed(n, 1));
    assert!(proto.finished(&ch));
}

#[test]
fn reconnect_delays_spread_over_the_range() {
    let mut config = Config::new();
    config.reconnect_delay_min_max(Duration::from_millis(100), Duration::from_millis(200));
    let mut pool = Pool::new(&config);
    pool.update_addresses(vec![addr(1)]);
    let mut delays = Vec::new();
    for round in 0..2000u64 {
        let now = round * 1000;
        let id = pool.conns[0].id;
        let d = pool.draw_delay();
        assert!(pool.connect_failed(id, now, d));
        match pool.conns[0].state {
            State::Failed(t) => delays.push(t - now),
            s => panic!("unexpected state {:?}", s),
        }
        pool.reconnect_failed(now + 200);
    }
    assert!(delays.iter().all(|d| (100..=200).contains(d)));
    let mean = delays.iter().sum::<u64>() as f64 / delays.len() as f64;
    assert!((140.0..160.0).contains(&mean));
    let low_half = delays.iter().filter(|&&d| d < 150).count();
    assert!(low_half > 800 && low_half < 1200);
}

#[test]
fn drained_buffer_waits_a_day_without_timeout() {
    let mut config = Config::new();
    config.write_timeout(Duration::from_millis(500));
    let mut pool = connected_pool(&config, 0);
    let mut ch = channel(10);
    ch.add_value_at(b"m", b"1", 0);
    assert!(pool.new_metrics(&mut ch));
    pool.flushed(0, 6, 100, 100);
    assert_eq!(pool.conns[0].deadline, 100 + DAY_MS);
    ch.add_value_at(b"m", b"2", 0);
    assert!(pool.new_metrics(&mut ch));
    pool.flushed(0, 0, 10_000, 100);
    assert_eq!(pool.conns[0].state, State::Normal);
}

#[test]
fn new_attempts_get_fresh_ids() {
    let config = Config::new();
    let mut pool = Pool::new(&config);
    pool.update_addresses(vec![addr(1), addr(2)]);
    let first: Vec<u64> = pool.conns.iter().map(|c| c.id).collect();
    assert_eq!(first, vec![0, 1]);
    assert!(pool.connect_failed(0, 0, 50));
    pool.reconnect_failed(50);
    assert_eq!(pool.conns[0].id, 2);
    assert_eq!(pool.next_id, 3);
    pool.update_addresses(vec![addr(3)]);
    assert_eq!(pool.conns[0].id, 3);
}

#[test]
fn proto_read_decisions() {
    let mut config = Config::new();
    config.watermarks(10, 20);
    let mut proto = Proto::new(&config, 0);
    assert_eq!(proto.after_read(ReadEvent::Data), Step::Abort);
    assert_eq!(proto.after_read(ReadEvent::Failed), Step::Abort);
    assert_eq!(proto.after_read(ReadEvent::Closed), Step::Finish);
    assert_eq!(proto.after_read(ReadEvent::Nothing), Step::Fill);
    let mut ch = channel(10);
    ch.add_value_at(b"a", b"1", 0);
    ch.add_value_at(b"a", b"1", 1);
    proto.fill(&mut ch);
    assert_eq!(proto.after_read(ReadEvent::Nothing), Step::Drain);
    assert_eq!(proto.after_read(ReadEvent::Closed), Step::Drain);
    assert!(proto.flushed(12, 3));
    assert_eq!(proto.deadline, 3 + DAY_MS);
    assert_eq!(proto.after_read(ReadEvent::Closed), Step::Finish);
}
