use rand::Rng;
use vstd::prelude::*;
use crate::channel::Channel;
use crate::config::{Config, duration_ms, clamp_u64, to_ms};
use crate::metric::Metric;

verus! {

/// One day in milliseconds: the deadline of a connection with nothing to
/// write, and the wake-up time when nothing else is due.
pub const DAY_MS: u64 = 86_400_000;

/// A socket address: the IP address (an IPv4 address as its 32-bit value)
/// and the port.
#[derive(Clone, Copy, Debug, PartialEq, Eq, Structural, Hash)]
pub struct Addr {
    pub ip: u128,
    pub v6: bool,
    pub port: u16,
}

/// Where a connection to an address stands.
#[derive(Clone, Copy, Debug, PartialEq, Eq, Structural)]
pub enum State {
    /// A connect attempt is in flight.
    Pending,
    /// Connected, with less than the low watermark buffered.
    Normal,
    /// Connected, with at least the low watermark buffered.
    Crowded,
    /// No socket; the next connect attempt is due at the given time.
    Failed(u64),
}

/// A connection of the engine. `id` tells apart the sockets and connect
/// attempts that the host runs for it: every new attempt takes the next value of `Pool::next_id`.
/// `out` and `deadline` matter while it is connected.
#[derive(Debug)]
pub struct Conn {
    pub id: u64,
    pub addr: Addr,
    pub state: State,
    /// Bytes accepted for this connection and not yet written.
    pub out: Vec<u8>,
    /// Time by which some byte must be written while `out` is not empty.
    pub deadline: u64,
}

impl Conn {
    pub open spec fn is_active(&self) -> bool {
        self.state is Normal || self.state is Crowded
    }
}

/// The addresses of a sequence of connections.
pub open spec fn addrs_of(cs: Seq<Conn>) -> Seq<Addr> {
    cs.map_values(|c: Conn| c.addr)
}

/// The bytes of a sequence of metrics, one after the other.
pub open spec fn bytes_of(ms: Seq<Metric>) -> Seq<u8>
    decreases ms.len(),
{
    if ms.len() == 0 {
        Seq::empty()
    } else {
        bytes_of(ms.drop_last()) + ms.last().0@
    }
}

/// The connection-pool engine: one connection for each address that the
/// target currently resolves to, plus the retired ones that still drain.
///
/// The host runs the sockets, the connect attempts and the timer; it reports
/// what happened through the methods below, in the order of one pass:
/// `update_addresses`, `connected` / `connect_failed`, `socket_failed`,
/// `flushed` of the crowded connections, `new_metrics`, `flushed` of the normal
/// ones, `reconnect_failed`, then `next_deadline`.
#[derive(Debug)]
pub struct Pool {
    /// The address set accepted last, if any.
    pub cur_address: Option<Vec<Addr>>,
    /// The connections to the addresses of `cur_address`, one each.
    pub conns: Vec<Conn>,
    /// Connections to addresses that went away: they get no new metrics and
    /// are closed once drained.
    pub retired: Vec<Conn>,
    pub next_id: u64,
    pub low: usize,
    pub high: usize,
    pub write_timeout_ms: u64,
    pub delay_min: u64,
    pub delay_max: u64,
}

impl Pool {
    /// Each address of the current set has exactly one connection (pending,
    /// normal, crowded or failed), and no other address has any; the
    /// settings are those of a well-formed configuration; every id is below
    /// `next_id`, so the next attempt's id is fresh.
    pub open spec fn wf(&self) -> bool {
        &&& addrs_of(self.conns@).no_duplicates()
        &&& match self.cur_address {
            None => self.conns@.len() == 0,
            Some(cur) => forall|a: Addr| #[trigger] addrs_of(self.conns@).contains(a) <==> cur@.contains(a),
        }
        &&& 0 < self.low <= self.high
        &&& self.delay_min <= self.delay_max
        &&& forall|j: int| 0 <= j < self.conns@.len() ==> (#[trigger] self.conns@[j]).id < self.next_id
        &&& forall|j: int| 0 <= j < self.retired@.len() ==> (#[trigger] self.retired@[j]).id < self.next_id
    }

    /// An engine with no address set yet and no connection.
    pub fn new(config: &Config) -> (r: Pool)
        requires
            config.wf(),
        ensures
            r.wf(),
            r.cur_address is None,
            r.conns@.len() == 0,
            r.retired@.len() == 0,
            r.low == config.watermarks.0,
            r.high == config.watermarks.1,
            r.write_timeout_ms == clamp_u64(duration_ms(config.write_timeout)),
            r.delay_min == config.reconnect_delay.0,
            r.delay_max == config.reconnect_delay.1,
    {
        Pool {
            cur_address: None,
            conns: Vec::new(),
            retired: Vec::new(),
            next_id: 0,
            low: config.watermarks.0,
            high: config.watermarks.1,
            write_timeout_ms: to_ms(config.write_timeout),
            delay_min: config.reconnect_delay.0,
            delay_max: config.reconnect_delay.1,
        }
    }
}

/// Whether some connection of `cs` is to `a`.
fn has_conn_to(cs: &Vec<Conn>, a: &Addr) -> (r: bool)
    ensures
        r == addrs_of(cs@).contains(*a),
{
    let mut i: usize = 0;
    while i < cs.len()
        invariant
            i <= cs@.len(),
            forall|j: int| 0 <= j < i ==> cs@[j].addr != *a,
        decreases cs@.len() - i,
    {
        if cs[i].addr == *a {
            proof {
                assert(addrs_of(cs@)[i as int] == *a);
            }
            return true;
        }
        i = i + 1;
    }
    proof {
        if addrs_of(cs@).contains(*a) {
            let k = choose|k: int| 0 <= k < addrs_of(cs@).len() && addrs_of(cs@)[k] == *a;
            assert(cs@[k].addr == *a);
        }
    }
    false
}

proof fn lemma_addrs_push(cs: Seq<Conn>, c: Conn)
    ensures
        addrs_of(cs.push(c)) == addrs_of(cs).push(c.addr),
{
    assert(addrs_of(cs.push(c)) =~= addrs_of(cs).push(c.addr));
}

/// Whether a connection is to an address of `new`.
pub open spec fn keeps(new: Seq<Addr>) -> spec_fn(Conn) -> bool {
    |c: Conn| new.contains(c.addr)
}

/// Whether a connection is connected to an address missing from `new`.
pub open spec fn retires(new: Seq<Addr>) -> spec_fn(Conn) -> bool {
    |c: Conn| !new.contains(c.addr) && c.is_active()
}

/// The connections that survive a new address set: those to an address in it.
pub open spec fn kept_by(cs: Seq<Conn>, new: Seq<Addr>) -> Seq<Conn> {
    cs.filter(keeps(new))
}

/// The connections that a new address set retires: the connected ones to an
/// address no longer in it.
pub open spec fn retired_by(cs: Seq<Conn>, new: Seq<Addr>) -> Seq<Conn> {
    cs.filter(retires(new))
}

proof fn lemma_filter_step(s: Seq<Conn>, i: int, p: spec_fn(Conn) -> bool)
    requires
        0 <= i < s.len(),
    ensures
        s.take(i + 1).filter(p) == if p(s[i]) {
            s.take(i).filter(p).push(s[i])
        } else {
            s.take(i).filter(p)
        },
{
    reveal_with_fuel(Seq::filter, 1);
    assert(s.take(i + 1).drop_last() =~= s.take(i));
}

impl Pool {
    /// Accepts a new address set. Connections to addresses that are gone are
    /// dropped when pending or failed, and retired when connected; the others
    /// stay as they are, in order. Each address that had no connection gets a
    /// pending one, with the next id of the counter, after them.
    pub fn update_addresses(&mut self, new: Vec<Addr>)
        requires
            old(self).wf(),
            old(self).next_id + new@.len() <= u64::MAX,
        ensures
            final(self).wf(),
            final(self).cur_address == Some(new),
            final(self).next_id >= old(self).next_id,
            ({
                let kept = kept_by(old(self).conns@, new@);
                &&& final(self).conns@.len() >= kept.len()
                &&& final(self).conns@.take(kept.len() as int) == kept
                &&& forall|j: int| kept.len() <= j < final(self).conns@.len() ==> {
                    &&& (#[trigger] final(self).conns@[j]).state is Pending
                    &&& final(self).conns@[j].out@.len() == 0
                    &&& !addrs_of(old(self).conns@).contains(final(self).conns@[j].addr)
                    &&& old(self).next_id <= final(self).conns@[j].id
                }
            }),
            final(self).retired@ == old(self).retired@ + retired_by(old(self).conns@, new@),
            final(self).low == old(self).low,
            final(self).high == old(self).high,
            final(self).write_timeout_ms == old(self).write_timeout_ms,
            final(self).delay_min == old(self).delay_min,
            final(self).delay_max == old(self).delay_max,
    {
        let ghost nv = new@;
        let mut rest: Vec<Conn> = Vec::new();
        std::mem::swap(&mut rest, &mut self.conns);
        let ghost orig = rest@;
        let ghost orig_retired = self.retired@;
        let ghost mut i: int = 0;
        proof {
            reveal_with_fuel(Seq::filter, 1);
            assert(orig.take(0) =~= Seq::<Conn>::empty());
            assert(orig_retired + kept_by(Seq::<Conn>::empty(), nv) =~= orig_retired);
            assert(addrs_of(self.conns@) =~= Seq::<Addr>::empty());
            assert(addrs_of(orig.take(0)) =~= Seq::<Addr>::empty());
        }
        while rest.len() > 0
            invariant
                0 <= i <= orig.len(),
                nv == new@,
                orig == old(self).conns@,
                orig_retired == old(self).retired@,
                self.next_id == old(self).next_id,
                forall|k: int| 0 <= k < orig.len() ==> (#[trigger] orig[k]).id < self.next_id,
                forall|k: int| 0 <= k < self.conns@.len() ==> (#[trigger] self.conns@[k]).id < self.next_id,
                forall|k: int| 0 <= k < self.retired@.len() ==> (#[trigger] self.retired@[k]).id < self.next_id,
                self.low == old(self).low,
                self.high == old(self).high,
                self.write_timeout_ms == old(self).write_timeout_ms,
                self.delay_min == old(self).delay_min,
                self.delay_max == old(self).delay_max,
                rest@ == orig.skip(i),
                addrs_of(orig).no_duplicates(),
                self.conns@ == kept_by(orig.take(i), nv),
                self.retired@ == orig_retired + retired_by(orig.take(i), nv),
                addrs_of(self.conns@).no_duplicates(),
                forall|a: Addr| #[trigger] addrs_of(self.conns@).contains(a) ==> nv.contains(a)
                    && addrs_of(orig.take(i)).contains(a),
                forall|j: int| 0 <= j < i && nv.contains(#[trigger] orig[j].addr)
                    ==> addrs_of(self.conns@).contains(orig[j].addr),
            decreases rest@.len(),
        {
            let c = rest.remove(0);
            let ghost before = self.conns@;
            let ghost cg = c;
            proof {
                assert(orig[i] == c);
                assert(rest@ =~= orig.skip(i + 1));
                assert(addrs_of(orig.take(i + 1)) =~= addrs_of(orig.take(i)).push(c.addr));
                assert(addrs_of(orig)[i] == c.addr);
                lemma_filter_step(orig, i, keeps(nv));
                lemma_filter_step(orig, i, retires(nv));
                lemma_addrs_push(before, c);
            }
            let kept = contains_addr(&new, &c.addr);
            if kept {
                proof {
                    if addrs_of(before).contains(c.addr) {
                        let k = choose|k: int| 0 <= k < addrs_of(orig.take(i)).len() && addrs_of(orig.take(i))[k] == c.addr;
                        assert(addrs_of(orig)[k] == addrs_of(orig)[i]);
                    }
                }
                self.conns.push(c);
            } else if c.is_active_exec() {
                self.retired.push(c);
            }
            proof {
                let t = orig.take(i + 1);
                if retires(nv)(cg) {
                    assert(orig_retired + retired_by(t, nv) =~= (orig_retired + retired_by(orig.take(i), nv)).push(cg));
                } else {
                    assert(orig_retired + retired_by(t, nv) =~= orig_retired + retired_by(orig.take(i), nv));
                }
                assert forall|a: Addr| #[trigger] addrs_of(self.conns@).contains(a) implies nv.contains(a)
                    && addrs_of(t).contains(a) by {
                    let k = choose|k: int| 0 <= k < addrs_of(self.conns@).len() && addrs_of(self.conns@)[k] == a;
                    if kept && k == before.len() {
                        assert(addrs_of(t)[i] == a);
                        assert(nv.contains(a));
                    } else {
                        assert(addrs_of(before)[k] == a);
                        assert(addrs_of(before).contains(a));
                        let k2 = choose|k2: int| 0 <= k2 < addrs_of(orig.take(i)).len() && addrs_of(orig.take(i))[k2] == a;
                        assert(addrs_of(t)[k2] == a);
                    }
                }
                assert forall|j: int| 0 <= j < i + 1 && nv.contains(#[trigger] orig[j].addr)
                    implies addrs_of(self.conns@).contains(orig[j].addr) by {
                    if j < i {
                        let k = choose|k: int| 0 <= k < addrs_of(before).len() && addrs_of(before)[k] == orig[j].addr;
                        assert(addrs_of(self.conns@)[k] == orig[j].addr);
                    } else {
                        assert(addrs_of(self.conns@)[before.len() as int] == orig[j].addr);
                    }
                }
                i = i + 1;
            }
        }
        proof {
            assert(orig.take(i) =~= orig);
        }
        let ghost kept_len = self.conns@.len();
        let mut k: usize = 0;
        while k < new.len()
            invariant
                k <= new@.len(),
                nv == new@,
                orig == old(self).conns@,
                self.retired@ == old(self).retired@ + retired_by(orig, nv),
                old(self).next_id <= self.next_id <= old(self).next_id + k,
                old(self).next_id + new@.len() <= u64::MAX,
                forall|j: int| 0 <= j < self.conns@.len() ==> (#[trigger] self.conns@[j]).id < self.next_id,
                forall|j: int| 0 <= j < self.retired@.len() ==> (#[trigger] self.retired@[j]).id < self.next_id,
                self.low == old(self).low,
                self.high == old(self).high,
                self.write_timeout_ms == old(self).write_timeout_ms,
                self.delay_min == old(self).delay_min,
                self.delay_max == old(self).delay_max,
                kept_len == kept_by(orig, nv).len(),
                self.conns@.len() >= kept_len,
                self.conns@.take(kept_len as int) == kept_by(orig, nv),
                addrs_of(self.conns@).no_duplicates(),
                forall|a: Addr| #[trigger] addrs_of(self.conns@).contains(a) ==> nv.contains(a),
                forall|j: int| 0 <= j < k ==> addrs_of(self.conns@).contains(#[trigger] nv[j]),
                forall|j: int| 0 <= j < orig.len() && nv.contains(#[trigger] orig[j].addr)
                    ==> addrs_of(self.conns@).contains(orig[j].addr),
                forall|j: int| kept_len <= j < self.conns@.len() ==> {
                    &&& (#[trigger] self.conns@[j]).state is Pending
                    &&& self.conns@[j].out@.len() == 0
                    &&& !addrs_of(orig).contains(self.conns@[j].addr)
                    &&& old(self).next_id <= self.conns@[j].id
                },
            decreases new@.len() - k,
        {
            let a = new[k];
            let ghost before = self.conns@;
            if !has_conn_to(&self.conns, &a) {
                let c = Conn { id: self.next_id, addr: a, state: State::Pending, out: Vec::new(), deadline: 0 };
                proof {
                    lemma_addrs_push(before, c);
                    if addrs_of(orig).contains(a) {
                        let j = choose|j: int| 0 <= j < addrs_of(orig).len() && addrs_of(orig)[j] == a;
                        assert(orig[j].addr == a);
                    }
                    assert(before.push(c).take(kept_len as int) =~= before.take(kept_len as int));
                }
                self.conns.push(c);
                self.next_id = self.next_id + 1;
                proof {
                    assert forall|x: Addr| #[trigger] addrs_of(self.conns@).contains(x) implies nv.contains(x) by {
                        let q = choose|q: int| 0 <= q < addrs_of(self.conns@).len() && addrs_of(self.conns@)[q] == x;
                        if q < before.len() {
                            assert(addrs_of(before)[q] == x);
                            assert(addrs_of(before).contains(x));
                        } else {
                            assert(nv[k as int] == x);
                            assert(nv.contains(x));
                        }
                    }
                    assert forall|j: int| 0 <= j < k implies addrs_of(self.conns@).contains(#[trigger] nv[j]) by {
                        let q = choose|q: int| 0 <= q < addrs_of(before).len() && addrs_of(before)[q] == nv[j];
                        assert(addrs_of(self.conns@)[q] == nv[j]);
                    }
                    assert forall|j: int| 0 <= j < orig.len() && nv.contains(#[trigger] orig[j].addr)
                        implies addrs_of(self.conns@).contains(orig[j].addr) by {
                        let q = choose|q: int| 0 <= q < addrs_of(before).len() && addrs_of(before)[q] == orig[j].addr;
                        assert(addrs_of(self.conns@)[q] == orig[j].addr);
                    }
                    assert(addrs_of(self.conns@)[before.len() as int] == a);
                }
            }
            proof {
                assert(nv[k as int] == a);
            }
            k = k + 1;
        }
        proof {
            assert forall|a: Addr| #[trigger] addrs_of(self.conns@).contains(a) <==> nv.contains(a) by {
                if nv.contains(a) {
                    let j = choose|j: int| 0 <= j < nv.len() && nv[j] == a;
                }
            }
        }
        self.cur_address = Some(new);
    }
}

impl Conn {
    fn is_active_exec(&self) -> (r: bool)
        ensures
            r == self.is_active(),
    {
        match self.state {
            State::Normal | State::Crowded => true,
            _ => false,
        }
    }
}

/// `a` and `b` agree everywhere but at `i`.
pub open spec fn same_except(a: Seq<Conn>, b: Seq<Conn>, i: int) -> bool {
    &&& a.len() == b.len()
    &&& forall|j: int| 0 <= j < a.len() && j != i ==> #[trigger] a[j] == b[j]
}

/// The first connection of `cs` with id `id` is pending.
pub open spec fn first_pending_with(cs: Seq<Conn>, id: u64) -> bool {
    exists|i: int| 0 <= i < cs.len() && (#[trigger] cs[i]).id == id && cs[i].state is Pending
        && forall|j: int| 0 <= j < i ==> (#[trigger] cs[j]).id != id
}

/// `c` is `old` given up on at `now`: no socket, no buffered bytes, and a
/// retry due `delay` milliseconds later.
pub open spec fn failed_from(c: Conn, old: Conn, now: u64, delay: u64) -> bool {
    &&& c.id == old.id
    &&& c.addr == old.addr
    &&& c.out@.len() == 0
    &&& c.state == State::Failed(clamp_u64((now + delay) as nat))
}

/// Where a connection goes after a flush that left `len` bytes buffered.
pub open spec fn state_after_flush(len: nat, low: nat, high: nat) -> Option<State> {
    if len > high {
        None
    } else if len < low {
        Some(State::Normal)
    } else {
        Some(State::Crowded)
    }
}

/// Relies on rand's `thread_rng().gen_range(min..=max)`, which draws from the
/// inclusive range and panics only on an empty one.
#[verifier::external_body]
fn random_delay(min: u64, max: u64) -> (r: u64)
    requires
        min <= max,
    ensures
        min <= r <= max,
{
    rand::thread_rng().gen_range(min..=max)
}

impl Pool {
    /// A reconnect delay drawn at random from the configured range.
    pub fn draw_delay(&self) -> (r: u64)
        requires
            self.wf(),
        ensures
            self.delay_min <= r <= self.delay_max,
    {
        random_delay(self.delay_min, self.delay_max)
    }

    /// Gives up on the connection at `i` at time `now`: its bytes are
    /// dropped and a retry is scheduled `delay` milliseconds later.
    fn fail_at(&mut self, i: usize, now: u64, delay: u64)
        requires
            old(self).wf(),
            i < old(self).conns@.len(),
        ensures
            final(self).wf(),
            same_except(final(self).conns@, old(self).conns@, i as int),
            failed_from(final(self).conns@[i as int], old(self).conns@[i as int], now, delay),
            final(self).cur_address == old(self).cur_address,
            final(self).retired == old(self).retired,
            final(self).next_id == old(self).next_id,
            final(self).low == old(self).low,
            final(self).high == old(self).high,
            final(self).write_timeout_ms == old(self).write_timeout_ms,
            final(self).delay_min == old(self).delay_min,
            final(self).delay_max == old(self).delay_max,
    {
        let retry_at = now.saturating_add(delay);
        let old_c = self.conns.remove(i);
        let c = Conn { id: old_c.id, addr: old_c.addr, state: State::Failed(retry_at), out: Vec::new(), deadline: 0 };
        self.conns.insert(i, c);
        proof {
            assert(self.conns@ =~= old(self).conns@.update(i as int, self.conns@[i as int]));
            assert(addrs_of(self.conns@) =~= addrs_of(old(self).conns@));
        }
    }

    /// The index of the connection whose current attempt or socket is `id`.
    pub fn find(&self, id: u64) -> (r: Option<usize>)
        ensures
            r matches Some(i) ==> i < self.conns@.len() && self.conns@[i as int].id == id
                && forall|j: int| 0 <= j < i ==> (#[trigger] self.conns@[j]).id != id,
            r is None ==> forall|j: int| 0 <= j < self.conns@.len() ==> (#[trigger] self.conns@[j]).id != id,
    {
        let mut i: usize = 0;
        while i < self.conns.len()
            invariant
                i <= self.conns@.len(),
                forall|j: int| 0 <= j < i ==> (#[trigger] self.conns@[j]).id != id,
            decreases self.conns@.len() - i,
        {
            if self.conns[i].id == id {
                return Some(i);
            }
            i = i + 1;
        }
        None
    }

    /// The connect attempt `id` succeeded at `now`: the connection becomes
    /// normal, with nothing to write and a deadline a day away. Returns
    /// false, changing nothing, when no pending connection has that id.
    pub fn connected(&mut self, id: u64, now: u64) -> (r: bool)
        requires
            old(self).wf(),
        ensures
            final(self).wf(),
            final(self).retired == old(self).retired,
            final(self).cur_address == old(self).cur_address,
            r ==> exists|i: int| 0 <= i < old(self).conns@.len()
                && old(self).conns@[i].id == id
                && old(self).conns@[i].state is Pending
                && same_except(final(self).conns@, old(self).conns@, i)
                && final(self).conns@[i].id == id
                && final(self).conns@[i].addr == old(self).conns@[i].addr
                && final(self).conns@[i].state is Normal
                && final(self).conns@[i].out@.len() == 0
                && final(self).conns@[i].deadline == clamp_u64((now + DAY_MS) as nat),
            !r ==> final(self).conns@ == old(self).conns@,
            first_pending_with(old(self).conns@, id) ==> r,
            final(self).low == old(self).low,
            final(self).high == old(self).high,
            final(self).write_timeout_ms == old(self).write_timeout_ms,
            final(self).delay_min == old(self).delay_min,
            final(self).delay_max == old(self).delay_max,
    {
        match self.find(id) {
            None => false,
            Some(i) => {
                if self.conns[i].state != State::Pending {
                    return false;
                }
                let old_c = self.conns.remove(i);
                let c = Conn {
                    id: old_c.id,
                    addr: old_c.addr,
                    state: State::Normal,
                    out: Vec::new(),
                    deadline: now.saturating_add(DAY_MS),
                };
                self.conns.insert(i, c);
                proof {
                    assert(self.conns@ =~= old(self).conns@.update(i as int, self.conns@[i as int]));
                    assert(addrs_of(self.conns@) =~= addrs_of(old(self).conns@));
                    assert(same_except(self.conns@, old(self).conns@, i as int));
                    assert(self.conns@[i as int].deadline == clamp_u64((now + DAY_MS) as nat));
                }
                true
            },
        }
    }

    /// The connect attempt `id` failed at `now`: a retry is scheduled
    /// `delay` milliseconds later, a delay drawn from the configured range.
    /// Returns false, changing nothing, when no pending connection has that
    /// id.
    pub fn connect_failed(&mut self, id: u64, now: u64, delay: u64) -> (r: bool)
        requires
            old(self).wf(),
            old(self).delay_min <= delay <= old(self).delay_max,
        ensures
            final(self).wf(),
            final(self).retired == old(self).retired,
            final(self).cur_address == old(self).cur_address,
            r ==> exists|i: int| 0 <= i < old(self).conns@.len()
                && old(self).conns@[i].id == id
                && old(self).conns@[i].state is Pending
                && same_except(final(self).conns@, old(self).conns@, i)
                && failed_from(final(self).conns@[i], old(self).conns@[i], now, delay),
            !r ==> final(self).conns@ == old(self).conns@,
            first_pending_with(old(self).conns@, id) ==> r,
            final(self).low == old(self).low,
            final(self).high == old(self).high,
            final(self).write_timeout_ms == old(self).write_timeout_ms,
            final(self).delay_min == old(self).delay_min,
            final(self).delay_max == old(self).delay_max,
    {
        match self.find(id) {
            None => false,
            Some(i) => {
                if self.conns[i].state != State::Pending {
                    return false;
                }
                self.fail_at(i, now, delay);
                true
            },
        }
    }

    /// The socket of the connection at `i` failed at `now`: a read gave data
    /// (the server never sends), an error or the end of the stream, or a
    /// write gave an error. The connection is given up on, with a retry
    /// `delay` milliseconds later, a delay drawn from the configured range. A
    /// connection that is not connected is left alone.
    pub fn socket_failed(&mut self, i: usize, now: u64, delay: u64)
        requires
            old(self).wf(),
            i < old(self).conns@.len(),
            old(self).delay_min <= delay <= old(self).delay_max,
        ensures
            final(self).wf(),
            final(self).retired == old(self).retired,
            final(self).cur_address == old(self).cur_address,
            old(self).conns@[i as int].is_active() ==> same_except(final(self).conns@, old(self).conns@, i as int)
                && failed_from(final(self).conns@[i as int], old(self).conns@[i as int], now, delay),
            !old(self).conns@[i as int].is_active() ==> final(self).conns@ == old(self).conns@,
            final(self).low == old(self).low,
            final(self).high == old(self).high,
            final(self).write_timeout_ms == old(self).write_timeout_ms,
            final(self).delay_min == old(self).delay_min,
            final(self).delay_max == old(self).delay_max,
    {
        if self.conns[i].is_active_exec() {
            self.fail_at(i, now, delay);
        }
    }
}

/// `c` is `old` with `bytes` appended to its buffer, and nothing else changed.
pub open spec fn appended(c: Conn, old: Conn, bytes: Seq<u8>) -> bool {
    &&& c.id == old.id
    &&& c.addr == old.addr
    &&& c.state == old.state
    &&& c.deadline == old.deadline
    &&& c.out@ == old.out@ + bytes
}

/// Some connection of `cs` is normal.
pub open spec fn has_normal(cs: Seq<Conn>) -> bool {
    exists|j: int| 0 <= j < cs.len() && (#[trigger] cs[j]).state is Normal
}

/// A flush of `c` at `now` that wrote nothing finds its deadline passed.
pub open spec fn times_out(c: Conn, written: nat, now: u64) -> bool {
    c.out@.len() > 0 && written == 0 && c.deadline < now
}

/// The deadline of `c` after a flush at `now` that wrote `written` bytes:
/// a day away once the buffer is empty, a write timeout away on progress that
/// leaves bytes behind, kept otherwise.
pub open spec fn deadline_after(c: Conn, written: nat, now: u64, timeout: u64) -> u64 {
    if c.out@.len() > 0 && written > 0 {
        if written == c.out@.len() {
            clamp_u64((now + DAY_MS) as nat)
        } else {
            clamp_u64((now + timeout) as nat)
        }
    } else {
        c.deadline
    }
}

proof fn lemma_bytes_step(q: Seq<Metric>, n: int)
    requires
        0 <= n < q.len(),
    ensures
        bytes_of(q.take(n + 1)) == bytes_of(q.take(n)) + q[n].0@,
{
    assert(q.take(n + 1).drop_last() =~= q.take(n));
}

impl Pool {
    /// The bytes buffered in the connection at `i` were handed to its socket
    /// at `now`, which took the first `written` of them. A flush that wrote
    /// nothing past the write deadline, or that leaves more than the high
    /// watermark buffered, gives the connection up, with a retry `delay`
    /// milliseconds later. Otherwise the written bytes leave the buffer, the
    /// deadline moves as `deadline_after` says, and the connection is normal
    /// below the low watermark and crowded from it on.
    pub fn flushed(&mut self, i: usize, written: usize, now: u64, delay: u64)
        requires
            old(self).wf(),
            i < old(self).conns@.len(),
            old(self).conns@[i as int].is_active(),
            written <= old(self).conns@[i as int].out@.len(),
            old(self).delay_min <= delay <= old(self).delay_max,
        ensures
            final(self).wf(),
            final(self).retired == old(self).retired,
            final(self).cur_address == old(self).cur_address,
            same_except(final(self).conns@, old(self).conns@, i as int),
            ({
                let c = old(self).conns@[i as int];
                let n = final(self).conns@[i as int];
                let rest = c.out@.skip(written as int);
                if times_out(c, written as nat, now) || state_after_flush(rest.len(), old(self).low as nat, old(self).high as nat) is None {
                    failed_from(n, c, now, delay)
                } else {
                    &&& n.id == c.id
                    &&& n.addr == c.addr
                    &&& n.out@ == rest
                    &&& Some(n.state) == state_after_flush(rest.len(), old(self).low as nat, old(self).high as nat)
                    &&& n.deadline == deadline_after(c, written as nat, now, old(self).write_timeout_ms)
                }
            }),
            final(self).conns@[i as int].is_active() ==> final(self).conns@[i as int].out@.len() <= old(self).high,
            final(self).low == old(self).low,
            final(self).high == old(self).high,
            final(self).write_timeout_ms == old(self).write_timeout_ms,
            final(self).delay_min == old(self).delay_min,
            final(self).delay_max == old(self).delay_max,
    {
        let mut c = self.conns.remove(i);
        let old_len = c.out.len();
        let mut deadline = c.deadline;
        let mut timed_out = false;
        if old_len > 0 {
            if written == old_len {
                deadline = now.saturating_add(DAY_MS);
            } else if written > 0 {
                deadline = now.saturating_add(self.write_timeout_ms);
            } else if c.deadline < now {
                timed_out = true;
            }
        }
        if timed_out || old_len - written > self.high {
            self.conns.insert(i, c);
            proof {
                assert(self.conns@ =~= old(self).conns@);
            }
            self.fail_at(i, now, delay);
            return;
        }
        let tail = c.out.split_off(written);
        let state = if tail.len() < self.low { State::Normal } else { State::Crowded };
        let n = Conn { id: c.id, addr: c.addr, state, out: tail, deadline };
        self.conns.insert(i, n);
        proof {
            assert(self.conns@ =~= old(self).conns@.update(i as int, self.conns@[i as int]));
            assert(addrs_of(self.conns@) =~= addrs_of(old(self).conns@));
        }
    }

    /// Whether some connection is normal.
    pub fn any_normal(&self) -> (r: bool)
        ensures
            r == has_normal(self.conns@),
    {
        let mut j: usize = 0;
        while j < self.conns.len()
            invariant
                j <= self.conns@.len(),
                forall|k: int| 0 <= k < j ==> !((#[trigger] self.conns@[k]).state is Normal),
            decreases self.conns@.len() - j,
        {
            if self.conns[j].state == State::Normal {
                return true;
            }
            j = j + 1;
        }
        false
    }

    /// Appends `bytes` to the buffer of every connected connection.
    fn append_all(&mut self, bytes: &Vec<u8>)
        requires
            old(self).wf(),
        ensures
            final(self).wf(),
            final(self).conns@.len() == old(self).conns@.len(),
            forall|j: int| 0 <= j < old(self).conns@.len() ==> if old(self).conns@[j].is_active() {
                appended(#[trigger] final(self).conns@[j], old(self).conns@[j], bytes@)
            } else {
                final(self).conns@[j] == old(self).conns@[j]
            },
            final(self).retired == old(self).retired,
            final(self).cur_address == old(self).cur_address,
            final(self).next_id == old(self).next_id,
            final(self).low == old(self).low,
            final(self).high == old(self).high,
            final(self).write_timeout_ms == old(self).write_timeout_ms,
            final(self).delay_min == old(self).delay_min,
            final(self).delay_max == old(self).delay_max,
    {
        let mut j: usize = 0;
        while j < self.conns.len()
            invariant
                j <= self.conns@.len(),
                self.conns@.len() == old(self).conns@.len(),
                addrs_of(self.conns@) == addrs_of(old(self).conns@),
                forall|k: int| 0 <= k < self.conns@.len() ==> if k < j && old(self).conns@[k].is_active() {
                    appended(#[trigger] self.conns@[k], old(self).conns@[k], bytes@)
                } else {
                    self.conns@[k] == old(self).conns@[k]
                },
                self.retired == old(self).retired,
                self.cur_address == old(self).cur_address,
                self.next_id == old(self).next_id,
                self.low == old(self).low,
                self.high == old(self).high,
                self.write_timeout_ms == old(self).write_timeout_ms,
                self.delay_min == old(self).delay_min,
                self.delay_max == old(self).delay_max,
            decreases self.conns@.len() - j,
        {
            if self.conns[j].is_active_exec() {
                let ghost before = self.conns@;
                let mut c = self.conns.remove(j);
                c.out.extend_from_slice(bytes.as_slice());
                self.conns.insert(j, c);
                proof {
                    assert(self.conns@ =~= before.update(j as int, self.conns@[j as int]));
                    assert(self.conns@[j as int].out@ =~= before[j as int].out@ + bytes@);
                    assert(addrs_of(self.conns@) =~= addrs_of(before));
                }
            }
            j = j + 1;
        }
    }

    /// Moves the queued metrics into the connections. Only while some
    /// connection is normal: then the channel is drained, and every metric
    /// is appended to the buffer of every normal and every crowded
    /// connection, in queue order. Otherwise nothing is taken, and the
    /// channel holds the metrics back. Returns whether metrics were taken.
    pub fn new_metrics(&mut self, chan: &mut Channel) -> (r: bool)
        requires
            old(self).wf(),
            old(chan).wf(),
        ensures
            final(self).wf(),
            final(chan).wf(),
            final(chan).capacity() == old(chan).capacity(),
            final(chan).senders() == old(chan).senders(),
            r == has_normal(old(self).conns@),
            r ==> final(chan).queue().len() == 0,
            r ==> final(self).conns@.len() == old(self).conns@.len(),
            r ==> forall|j: int| 0 <= j < old(self).conns@.len() ==> if old(self).conns@[j].is_active() {
                appended(#[trigger] final(self).conns@[j], old(self).conns@[j], bytes_of(old(chan).queue()))
            } else {
                final(self).conns@[j] == old(self).conns@[j]
            },
            !r ==> final(chan).queue() == old(chan).queue() && final(self).conns@ == old(self).conns@,
            final(self).retired == old(self).retired,
            final(self).cur_address == old(self).cur_address,
            final(self).low == old(self).low,
            final(self).high == old(self).high,
            final(self).write_timeout_ms == old(self).write_timeout_ms,
            final(self).delay_min == old(self).delay_min,
            final(self).delay_max == old(self).delay_max,
    {
        if !self.any_normal() {
            return false;
        }
        let ghost q0 = chan.queue();
        let ghost mut n: int = 0;
        proof {
            assert(q0.take(0) =~= Seq::<Metric>::empty());
            assert(q0.skip(0) =~= q0);
            assert(bytes_of(q0.take(0)) =~= Seq::<u8>::empty());
            assert forall|j: int| 0 <= j < old(self).conns@.len() && old(self).conns@[j].is_active()
                implies appended(#[trigger] self.conns@[j], old(self).conns@[j], bytes_of(q0.take(0))) by {
                assert(self.conns@[j].out@ =~= old(self).conns@[j].out@ + Seq::<u8>::empty());
            }
        }
        loop
            invariant
                self.wf(),
                chan.wf(),
                0 <= n <= q0.len(),
                q0 == old(chan).queue(),
                chan.queue() == q0.skip(n),
                chan.capacity() == old(chan).capacity(),
                chan.senders() == old(chan).senders(),
                self.conns@.len() == old(self).conns@.len(),
                forall|j: int| 0 <= j < old(self).conns@.len() ==> if old(self).conns@[j].is_active() {
                    appended(#[trigger] self.conns@[j], old(self).conns@[j], bytes_of(q0.take(n)))
                } else {
                    self.conns@[j] == old(self).conns@[j]
                },
                self.retired == old(self).retired,
                self.cur_address == old(self).cur_address,
                self.low == old(self).low,
                self.high == old(self).high,
                self.write_timeout_ms == old(self).write_timeout_ms,
                self.delay_min == old(self).delay_min,
                self.delay_max == old(self).delay_max,
            ensures
                n == q0.len(),
                chan.queue().len() == 0,
            decreases chan.queue().len(),
        {
            match chan.poll() {
                None => {
                    break;
                },
                Some(m) => {
                    let ghost before = self.conns@;
                    proof {
                        assert(m == q0[n]);
                        lemma_bytes_step(q0, n);
                        assert(chan.queue() =~= q0.skip(n + 1));
                    }
                    self.append_all(&m.0);
                    proof {
                        assert forall|j: int| 0 <= j < old(self).conns@.len() && old(self).conns@[j].is_active()
                            implies appended(#[trigger] self.conns@[j], old(self).conns@[j], bytes_of(q0.take(n + 1))) by {
                            assert(appended(before[j], old(self).conns@[j], bytes_of(q0.take(n))));
                            assert(self.conns@[j].out@ =~= old(self).conns@[j].out@ + bytes_of(q0.take(n + 1)));
                        }
                        n = n + 1;
                    }
                },
            }
        }
        proof {
            assert(q0.take(n) =~= q0);
        }
        true
    }
}

/// `c` is failed and its retry is due at `now`.
pub open spec fn retry_due(c: Conn, now: u64) -> bool {
    c.state matches State::Failed(t) && t <= now
}

/// A time at which the engine has something to do for `c`: its retry when
/// failed, its write deadline when connected.
pub open spec fn due_time(c: Conn) -> Option<u64> {
    match c.state {
        State::Failed(t) => Some(t),
        State::Normal | State::Crowded => Some(c.deadline),
        State::Pending => None,
    }
}

impl Pool {
    /// Starts a new connect attempt, with the next id of the counter, for every failed
    /// connection whose retry time is not after `now`.
    pub fn reconnect_failed(&mut self, now: u64)
        requires
            old(self).wf(),
            old(self).next_id + old(self).conns@.len() <= u64::MAX,
        ensures
            final(self).wf(),
            final(self).next_id >= old(self).next_id,
            final(self).conns@.len() == old(self).conns@.len(),
            forall|j: int| 0 <= j < old(self).conns@.len() ==> {
                let c = old(self).conns@[j];
                let n = #[trigger] final(self).conns@[j];
                if retry_due(c, now) {
                    &&& n.addr == c.addr
                    &&& n.state is Pending
                    &&& n.out@.len() == 0
                    &&& old(self).next_id <= n.id < final(self).next_id
                } else {
                    n == c
                }
            },
            final(self).retired == old(self).retired,
            final(self).cur_address == old(self).cur_address,
            final(self).low == old(self).low,
            final(self).high == old(self).high,
            final(self).write_timeout_ms == old(self).write_timeout_ms,
            final(self).delay_min == old(self).delay_min,
            final(self).delay_max == old(self).delay_max,
    {
        let mut j: usize = 0;
        while j < self.conns.len()
            invariant
                j <= self.conns@.len(),
                self.conns@.len() == old(self).conns@.len(),
                addrs_of(self.conns@) == addrs_of(old(self).conns@),
                forall|k: int| 0 <= k < self.conns@.len() ==> {
                    let c = old(self).conns@[k];
                    let n = #[trigger] self.conns@[k];
                    if k < j && retry_due(c, now) {
                        &&& n.addr == c.addr
                        &&& n.state is Pending
                        &&& n.out@.len() == 0
                        &&& old(self).next_id <= n.id < self.next_id
                    } else {
                        n == c
                    }
                },
                self.retired == old(self).retired,
                self.cur_address == old(self).cur_address,
                old(self).next_id <= self.next_id <= old(self).next_id + j,
                old(self).next_id + old(self).conns@.len() <= u64::MAX,
                forall|k: int| 0 <= k < self.conns@.len() ==> (#[trigger] self.conns@[k]).id < self.next_id,
                forall|k: int| 0 <= k < self.retired@.len() ==> (#[trigger] self.retired@[k]).id < self.next_id,
                self.low == old(self).low,
                self.high == old(self).high,
                self.write_timeout_ms == old(self).write_timeout_ms,
                self.delay_min == old(self).delay_min,
                self.delay_max == old(self).delay_max,
            decreases self.conns@.len() - j,
        {
            let due = match self.conns[j].state {
                State::Failed(t) => t <= now,
                _ => false,
            };
            if due {
                let ghost before = self.conns@;
                let old_c = self.conns.remove(j);
                let c = Conn { id: self.next_id, addr: old_c.addr, state: State::Pending, out: Vec::new(), deadline: 0 };
                self.conns.insert(j, c);
                self.next_id = self.next_id + 1;
                proof {
                    assert(self.conns@ =~= before.update(j as int, self.conns@[j as int]));
                    assert(addrs_of(self.conns@) =~= addrs_of(before));
                }
            }
            j = j + 1;
        }
    }

    /// The time the engine should next wake up at: the earliest retry of a
    /// failed connection or write deadline of a connected one, or a day
    /// after `now` when there is none.
    pub fn next_deadline(&self, now: u64) -> (r: u64)
        ensures
            forall|j: int| 0 <= j < self.conns@.len() && (#[trigger] due_time(self.conns@[j])) is Some
                ==> r <= due_time(self.conns@[j])->Some_0,
            (exists|j: int| 0 <= j < self.conns@.len() && (#[trigger] due_time(self.conns@[j])) == Some(r))
                || ((forall|j: int| 0 <= j < self.conns@.len() ==> (#[trigger] due_time(self.conns@[j])) is None)
                    && r == clamp_u64((now + DAY_MS) as nat)),
    {
        let mut best: Option<u64> = None;
        let mut j: usize = 0;
        while j < self.conns.len()
            invariant
                j <= self.conns@.len(),
                forall|k: int| 0 <= k < j && (#[trigger] due_time(self.conns@[k])) is Some
                    ==> best is Some && best->Some_0 <= due_time(self.conns@[k])->Some_0,
                best matches Some(b) ==> exists|k: int| 0 <= k < j && (#[trigger] due_time(self.conns@[k])) == Some(b),
                best is None ==> forall|k: int| 0 <= k < j ==> (#[trigger] due_time(self.conns@[k])) is None,
            decreases self.conns@.len() - j,
        {
            let t = match self.conns[j].state {
                State::Failed(t) => Some(t),
                State::Normal | State::Crowded => Some(self.conns[j].deadline),
                State::Pending => None,
            };
            proof {
                assert(t == due_time(self.conns@[j as int]));
            }
            match t {
                Some(t) => {
                    match best {
                        Some(b) => {
                            if t < b {
                                best = Some(t);
                            }
                        },
                        None => {
                            best = Some(t);
                        },
                    }
                },
                None => {},
            }
            j = j + 1;
        }
        match best {
            Some(b) => b,
            None => now.saturating_add(DAY_MS),
        }
    }

    /// The retired connection at `k` was handed to its socket at `now`,
    /// which took the first `written` of its buffered bytes. It is closed,
    /// and leaves the pool, once its buffer is empty or when it made no
    /// progress past its deadline. Returns whether it left.
    pub fn flush_retired(&mut self, k: usize, written: usize, now: u64) -> (r: bool)
        requires
            old(self).wf(),
            k < old(self).retired@.len(),
            written <= old(self).retired@[k as int].out@.len(),
        ensures
            final(self).wf(),
            final(self).conns == old(self).conns,
            final(self).cur_address == old(self).cur_address,
            ({
                let c = old(self).retired@[k as int];
                let rest = c.out@.skip(written as int);
                &&& r == (times_out(c, written as nat, now) || rest.len() == 0)
                &&& r ==> final(self).retired@ == old(self).retired@.remove(k as int)
                &&& !r ==> final(self).retired@.len() == old(self).retired@.len()
                    && forall|j: int| 0 <= j < old(self).retired@.len() && j != k
                        ==> #[trigger] final(self).retired@[j] == old(self).retired@[j]
                &&& !r ==> final(self).retired@[k as int].id == c.id
                    && final(self).retired@[k as int].out@ == rest
                    && final(self).retired@[k as int].deadline == deadline_after(c, written as nat, now, old(self).write_timeout_ms)
            }),
            final(self).low == old(self).low,
            final(self).high == old(self).high,
            final(self).write_timeout_ms == old(self).write_timeout_ms,
            final(self).delay_min == old(self).delay_min,
            final(self).delay_max == old(self).delay_max,
    {
        let mut c = self.retired.remove(k);
        let old_len = c.out.len();
        let mut deadline = c.deadline;
        let mut timed_out = false;
        if old_len > 0 {
            if written > 0 {
                deadline = now.saturating_add(self.write_timeout_ms);
            } else if c.deadline < now {
                timed_out = true;
            }
        }
        if timed_out || old_len == written {
            return true;
        }
        let tail = c.out.split_off(written);
        let n = Conn { id: c.id, addr: c.addr, state: c.state, out: tail, deadline };
        self.retired.insert(k, n);
        proof {
            assert(self.retired@ =~= old(self).retired@.update(k as int, self.retired@[k as int]));
        }
        false
    }

    /// Whether the engine is done: every producer handle is gone, nothing is
    /// queued, no connection has bytes left to write and no retired
    /// connection is left to drain.
    pub fn finished(&self, chan: &Channel) -> (r: bool)
        ensures
            r == (chan.senders() == 0 && chan.queue().len() == 0 && self.retired@.len() == 0
                && forall|j: int| 0 <= j < self.conns@.len() ==> (#[trigger] self.conns@[j]).out@.len() == 0),
    {
        if !chan.is_done() || self.retired.len() > 0 {
            return false;
        }
        let mut j: usize = 0;
        while j < self.conns.len()
            invariant
                j <= self.conns@.len(),
                forall|k: int| 0 <= k < j ==> (#[trigger] self.conns@[k]).out@.len() == 0,
            decreases self.conns@.len() - j,
        {
            if self.conns[j].out.len() > 0 {
                return false;
            }
            j = j + 1;
        }
        true
    }
}

/// A connection given up on at `now` with a delay of the configured range is
/// retried no sooner than the smallest and no later than the largest delay
/// after the failure, where that time fits the clock.
pub proof fn lemma_retry_delay_bounds(c: Conn, old: Conn, now: u64, delay: u64, min: u64, max: u64)
    requires
        failed_from(c, old, now, delay),
        min <= delay <= max,
        now + max <= u64::MAX,
    ensures
        c.state matches State::Failed(t) && min <= t - now <= max,
{
}

/// After a flush, a connected connection is crowded exactly when its buffer
/// is between the watermarks, normal below the low one, and given up on above
/// the high one.
pub proof fn lemma_watermark_transitions(len: nat, low: nat, high: nat)
    requires
        0 < low <= high,
    ensures
        state_after_flush(len, low, high) == Some(State::Crowded) <==> low <= len <= high,
        state_after_flush(len, low, high) == Some(State::Normal) <==> len < low,
        state_after_flush(len, low, high) is None <==> len > high,
{
}

/// Whether `a` is among `v`.
pub fn contains_addr(v: &Vec<Addr>, a: &Addr) -> (r: bool)
    ensures
        r == v@.contains(*a),
{
    let mut i: usize = 0;
    while i < v.len()
        invariant
            i <= v@.len(),
            forall|j: int| 0 <= j < i ==> v@[j] != *a,
        decreases v@.len() - i,
    {
        if v[i] == *a {
            return true;
        }
        i = i + 1;
    }
    false
}

} // verus!
