use vstd::prelude::*;

verus! {

/// The byte that separates the fields of a metric line.
pub const SP: u8 = 0x20;

/// The byte that ends a metric line.
pub const LF: u8 = 0x0a;

/// One encoded metric line, `name SP value SP seconds LF`.
#[derive(Debug)]
pub struct Metric(pub Vec<u8>);

/// How many times the byte `b` occurs in `s`.
pub open spec fn count_of(s: Seq<u8>, b: u8) -> nat
    decreases s.len(),
{
    if s.len() == 0 {
        0
    } else {
        count_of(s.drop_last(), b) + if s.last() == b { 1nat } else { 0nat }
    }
}

/// ASCII whitespace: space, tab, newline, form feed and carriage return.
pub open spec fn is_ascii_ws(b: u8) -> bool {
    b == SP || b == LF || b == 0x09u8 || b == 0x0cu8 || b == 0x0du8
}

/// How many whitespace bytes occur in `s`.
pub open spec fn whitespace(s: Seq<u8>) -> nat
    decreases s.len(),
{
    if s.len() == 0 {
        0
    } else {
        whitespace(s.drop_last()) + if is_ascii_ws(s.last()) { 1nat } else { 0nat }
    }
}

/// The ASCII decimal digits of `n`, most significant first, without
/// leading zeros.
pub open spec fn decimal(n: nat) -> Seq<u8>
    decreases n,
{
    if n < 10 {
        seq![(48 + n) as u8]
    } else {
        decimal(n / 10).push((48 + n % 10) as u8)
    }
}

/// The line that carries `value` of `name` at `secs` seconds since the
/// epoch.
pub open spec fn line(name: Seq<u8>, value: Seq<u8>, secs: nat) -> Seq<u8> {
    name + seq![SP] + value + seq![SP] + decimal(secs) + seq![LF]
}

/// A metric line holds exactly two spaces and one newline, no other
/// whitespace, and ends with the newline.
pub open spec fn is_metric_line(s: Seq<u8>) -> bool {
    &&& count_of(s, SP) == 2
    &&& count_of(s, LF) == 1
    &&& whitespace(s) == 3
    &&& s.len() > 0
    &&& s.last() == LF
}

/// Counting over a concatenation adds up.
pub proof fn lemma_count_concat(a: Seq<u8>, c: Seq<u8>, b: u8)
    ensures
        count_of(a + c, b) == count_of(a, b) + count_of(c, b),
    decreases c.len(),
{
    if c.len() == 0 {
        assert(a + c =~= a);
    } else {
        lemma_count_concat(a, c.drop_last(), b);
        assert((a + c).drop_last() =~= a + c.drop_last());
    }
}

/// Counting whitespace over a concatenation adds up.
pub proof fn lemma_whitespace_concat(a: Seq<u8>, c: Seq<u8>)
    ensures
        whitespace(a + c) == whitespace(a) + whitespace(c),
    decreases c.len(),
{
    if c.len() == 0 {
        assert(a + c =~= a);
    } else {
        lemma_whitespace_concat(a, c.drop_last());
        assert((a + c).drop_last() =~= a + c.drop_last());
    }
}

proof fn lemma_whitespace_single(x: u8)
    ensures
        whitespace(seq![x]) == if is_ascii_ws(x) { 1nat } else { 0nat },
{
    assert(seq![x].drop_last() =~= Seq::<u8>::empty());
    assert(whitespace(Seq::<u8>::empty()) == 0);
    assert(seq![x].last() == x);
}

proof fn lemma_count_single(x: u8, b: u8)
    ensures
        count_of(seq![x], b) == if x == b { 1nat } else { 0nat },
{
    assert(seq![x].drop_last() =~= Seq::<u8>::empty());
    assert(count_of(Seq::<u8>::empty(), b) == 0);
    assert(seq![x].last() == x);
}

/// The digits of a number hold no whitespace.
proof fn lemma_decimal_digits(n: nat)
    ensures
        count_of(decimal(n), SP) == 0,
        count_of(decimal(n), LF) == 0,
        whitespace(decimal(n)) == 0,
        decimal(n).len() > 0,
    decreases n,
{
    if n < 10 {
        lemma_count_single((48 + n) as u8, SP);
        lemma_count_single((48 + n) as u8, LF);
        lemma_whitespace_single((48 + n) as u8);
    } else {
        lemma_decimal_digits(n / 10);
        let d = (48 + n % 10) as u8;
        lemma_count_concat(decimal(n / 10), seq![d], SP);
        lemma_count_concat(decimal(n / 10), seq![d], LF);
        lemma_whitespace_concat(decimal(n / 10), seq![d]);
        lemma_count_single(d, SP);
        lemma_count_single(d, LF);
        lemma_whitespace_single(d);
        assert(decimal(n / 10).push(d) =~= decimal(n / 10) + seq![d]);
    }
}

/// The spaces, newlines and whitespace of a line are those of its name and value, plus the two
/// spaces and the newline that frame it.
pub proof fn lemma_line_counts(name: Seq<u8>, value: Seq<u8>, secs: nat)
    ensures
        count_of(line(name, value, secs), SP) == count_of(name, SP) + count_of(value, SP) + 2,
        count_of(line(name, value, secs), LF) == count_of(name, LF) + count_of(value, LF) + 1,
        whitespace(line(name, value, secs)) == whitespace(name) + whitespace(value) + 3,
        line(name, value, secs).len() > 0,
        line(name, value, secs).last() == LF,
{
    let d = decimal(secs);
    lemma_decimal_digits(secs);
    lemma_count_single(SP, SP);
    lemma_count_single(SP, LF);
    lemma_count_single(LF, SP);
    lemma_count_single(LF, LF);
    let s1 = name + seq![SP];
    let s2 = s1 + value;
    let s3 = s2 + seq![SP];
    let s4 = s3 + d;
    lemma_count_concat(name, seq![SP], SP);
    lemma_count_concat(s1, value, SP);
    lemma_count_concat(s2, seq![SP], SP);
    lemma_count_concat(s3, d, SP);
    lemma_count_concat(s4, seq![LF], SP);
    lemma_count_concat(name, seq![SP], LF);
    lemma_count_concat(s1, value, LF);
    lemma_count_concat(s2, seq![SP], LF);
    lemma_count_concat(s3, d, LF);
    lemma_count_concat(s4, seq![LF], LF);
    lemma_whitespace_single(SP);
    lemma_whitespace_single(LF);
    lemma_whitespace_concat(name, seq![SP]);
    lemma_whitespace_concat(s1, value);
    lemma_whitespace_concat(s2, seq![SP]);
    lemma_whitespace_concat(s3, d);
    lemma_whitespace_concat(s4, seq![LF]);
}

/// Every line built from a name and a value free of whitespace is a metric
/// line.
pub proof fn lemma_line_is_metric(name: Seq<u8>, value: Seq<u8>, secs: nat)
    requires
        whitespace(name) == 0,
        whitespace(value) == 0,
    ensures
        is_metric_line(line(name, value, secs)),
{
    lemma_line_counts(name, value, secs);
    lemma_whitespace_le_count(name);
    lemma_whitespace_le_count(value);
}

/// Spaces and newlines are whitespace, so they are no more than it.
proof fn lemma_whitespace_le_count(s: Seq<u8>)
    ensures
        count_of(s, SP) + count_of(s, LF) <= whitespace(s),
    decreases s.len(),
{
    if s.len() > 0 {
        lemma_whitespace_le_count(s.drop_last());
    }
}

/// The decimal digits of `n`.
pub fn encode_decimal(n: u64) -> (r: Vec<u8>)
    ensures
        r@ == decimal(n as nat),
{
    let mut digits: Vec<u8> = Vec::new();
    let mut m: u64 = n;
    assert(decimal(n as nat) =~= decimal(m as nat) + digits@);
    loop
        invariant_except_break
            decimal(n as nat) == decimal(m as nat) + digits@,
        ensures
            digits@ == decimal(n as nat),
        decreases m,
    {
        let d: u8 = (48 + m % 10) as u8;
        digits.insert(0, d);
        if m < 10 {
            assert(digits@ =~= decimal(m as nat) + digits@.drop_first());
            break;
        }
        proof {
            let prev = digits@.drop_first();
            assert(decimal(m as nat) == decimal((m / 10) as nat).push(d));
            assert(decimal(m as nat) + prev =~= decimal((m / 10) as nat) + digits@);
        }
        m = m / 10;
    }
    digits
}

/// The number of whitespace bytes in `buf`.
pub fn count_whitespace(buf: &[u8]) -> (r: usize)
    ensures
        r as nat == whitespace(buf@),
{
    let mut cnt: usize = 0;
    let mut i: usize = 0;
    while i < buf.len()
        invariant
            i <= buf@.len(),
            cnt as nat == whitespace(buf@.take(i as int)),
            cnt <= i,
        decreases buf@.len() - i,
    {
        proof {
            assert(buf@.take(i as int + 1).drop_last() =~= buf@.take(i as int));
        }
        let b = buf[i];
        if b == SP || b == LF || b == 0x09 || b == 0x0c || b == 0x0d {
            cnt = cnt + 1;
        }
        i = i + 1;
    }
    assert(buf@.take(i as int) =~= buf@);
    cnt
}

/// Encodes `value` of `name` at `secs` seconds since the epoch, or `None`
/// where the name or the value holds whitespace, which would break the line
/// protocol.
pub fn metric_line(name: &[u8], value: &[u8], secs: u64) -> (r: Option<Metric>)
    ensures
        r is Some <==> whitespace(name@) == 0 && whitespace(value@) == 0,
        r matches Some(m) ==> m.0@ == line(name@, value@, secs as nat),
        r matches Some(m) ==> is_metric_line(m.0@),
{
    let mut buf: Vec<u8> = Vec::new();
    buf.extend_from_slice(name);
    buf.push(SP);
    buf.extend_from_slice(value);
    buf.push(SP);
    let digits = encode_decimal(secs);
    buf.extend_from_slice(digits.as_slice());
    buf.push(LF);
    proof {
        assert(buf@ =~= line(name@, value@, secs as nat));
        lemma_line_counts(name@, value@, secs as nat);
    }
    let n = count_whitespace(buf.as_slice());
    if n == 3 {
        proof {
            lemma_line_is_metric(name@, value@, secs as nat);
        }
        Some(Metric(buf))
    } else {
        None
    }
}

} // verus!
