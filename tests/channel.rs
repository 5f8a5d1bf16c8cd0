use tk_carbon::channel::channel;
use tk_carbon::metric::metric_line;

#[test]
fn drained_in_submission_order() {
    let mut ch = channel(5);
    for i in 0..5u64 {
        assert_eq!(ch.add_value_at(b"m", b"1", i), Some(true));
    }
    for i in 0..5u64 {
        let m = ch.poll().unwrap();
        assert_eq!(m.0, format!("m 1 {}\n", i).into_bytes());
    }
    assert!(ch.poll().is_none());
}

#[test]
fn overflow_keeps_one_past_capacity() {
    let mut ch = channel(2);
    let mut kept = Vec::new();
    for i in 0..5u64 {
        kept.push(ch.send(metric_line(b"m", b"1", i).unwrap()));
    }
    assert_eq!(kept, vec![true, true, true, false, false]);
    assert_eq!(ch.buffered(), (3, 2));
    assert_eq!(ch.poll().unwrap().0, b"m 1 0\n".to_vec());
    assert_eq!(ch.buffered(), (2, 2));
}

#[test]
fn counter_never_exceeds_capacity_plus_one() {
    let k = 4usize;
    let mut ch = channel(k);
    for i in 0..20u64 {
        ch.add_value_at(b"m", b"1", i);
        assert!(ch.buffered().0 <= k + 1);
    }
    assert_eq!(ch.buffered().0, k + 1);
}

#[test]
fn done_when_senders_gone_and_drained() {
    let mut ch = channel(3);
    ch.add_sender();
    ch.add_value_at(b"m", b"1", 0);
    ch.remove_sender();
    ch.remove_sender();
    assert!(!ch.is_done());
    assert!(ch.poll().is_some());
    assert!(ch.is_done());
}
