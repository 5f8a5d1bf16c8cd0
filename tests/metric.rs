use tk_carbon::channel::channel;
use tk_carbon::metric::{count_whitespace, encode_decimal, metric_line};

#[test]
fn line_with_epoch_offset() {
    let m = metric_line(b"x.y", b"10", 1234).unwrap();
    assert_eq!(m.0, b"x.y 10 1234\n".to_vec());
}

#[test]
fn line_has_two_spaces_and_one_newline() {
    let m = metric_line(b"some.metric.name", b"-27.5", 1_700_000_000).unwrap();
    assert_eq!(m.0.iter().filter(|&&b| b == b' ').count(), 2);
    assert_eq!(m.0.iter().filter(|&&b| b == b'\n').count(), 1);
    assert_eq!(*m.0.last().unwrap(), b'\n');
}

#[test]
fn name_with_space_is_refused() {
    assert!(metric_line(b"bad name", b"1", 0).is_none());
    assert!(metric_line(b"name", b"1\n", 0).is_none());
    assert!(metric_line(b"a\tb", b"1", 0).is_none());
    assert!(metric_line(b"name", b"1\r", 0).is_none());
}

#[test]
fn decimal_digits() {
    assert_eq!(encode_decimal(0), b"0".to_vec());
    assert_eq!(encode_decimal(100), b"100".to_vec());
    assert_eq!(encode_decimal(u64::MAX), b"18446744073709551615".to_vec());
}

#[test]
fn whitespace_counted() {
    assert_eq!(count_whitespace(b"a b\nc d"), 3);
    assert_eq!(count_whitespace(b"a\tb\rc\x0cd"), 3);
    assert_eq!(count_whitespace(b""), 0);
}

#[test]
fn producer_refuses_broken_name() {
    let mut ch = channel(10);
    assert_eq!(ch.add_value_at(b"a b", b"1", 0), None);
    assert_eq!(ch.add_value_at(b"a\tb", b"1", 0), None);
    assert_eq!(ch.buffered(), (0, 10));
}
