use vstd::prelude::*;
use crate::channel::Channel;
use crate::config::{Config, duration_ms, clamp_u64, to_ms};
use crate::metric::Metric;
use crate::pool::{bytes_of, DAY_MS};

verus! {

/// What a read of the socket gave.
#[derive(Clone, Copy, Debug, PartialEq, Eq, Structural)]
pub enum ReadEvent {
    /// Nothing to read yet.
    Nothing,
    /// Bytes: the server never sends, so this is a protocol error.
    Data,
    /// The peer closed its side.
    Closed,
    /// A read error.
    Failed,
}

/// What the connection does next.
#[derive(Clone, Copy, Debug, PartialEq, Eq, Structural)]
pub enum Step {
    /// Take metrics from the channel, then write.
    Fill,
    /// Write what is buffered, and take nothing new.
    Drain,
    /// End with success.
    Finish,
    /// End with an error.
    Abort,
}

/// The outbound side of a single carbon connection that the caller already
/// owns: no address set and no reconnection. The caller runs the socket and
/// reports what it wrote.
#[derive(Debug)]
pub struct Proto {
    /// Bytes taken from the channel and not yet written.
    pub out: Vec<u8>,
    /// Time by which some byte must be written while `out` is not empty.
    pub deadline: u64,
    pub low: usize,
    pub write_timeout_ms: u64,
}

impl Proto {
    /// A connection with nothing buffered, whose first deadline is one write
    /// timeout after `now`.
    pub fn new(config: &Config, now: u64) -> (r: Proto)
        ensures
            r.out@.len() == 0,
            r.low == config.watermarks.0,
            r.write_timeout_ms == clamp_u64(duration_ms(config.write_timeout)),
            r.deadline == clamp_u64((now + r.write_timeout_ms) as nat),
    {
        let write_timeout_ms = to_ms(config.write_timeout);
        Proto {
            out: Vec::new(),
            deadline: now.saturating_add(write_timeout_ms),
            low: config.watermarks.0,
            write_timeout_ms,
        }
    }

    /// Moves metrics from the channel into the buffer, in queue order, and
    /// stops once the buffer reaches the low watermark or the channel is
    /// empty. Returns how many metrics were moved.
    pub fn fill(&mut self, chan: &mut Channel) -> (n: usize)
        requires
            old(chan).wf(),
        ensures
            final(chan).wf(),
            final(chan).capacity() == old(chan).capacity(),
            final(chan).senders() == old(chan).senders(),
            n <= old(chan).queue().len(),
            final(chan).queue() == old(chan).queue().skip(n as int),
            final(self).out@ == old(self).out@ + bytes_of(old(chan).queue().take(n as int)),
            n == old(chan).queue().len() || final(self).out@.len() >= old(self).low,
            n > 0 ==> (old(self).out@ + bytes_of(old(chan).queue().take(n - 1))).len() < old(self).low,
            final(self).deadline == old(self).deadline,
            final(self).low == old(self).low,
            final(self).write_timeout_ms == old(self).write_timeout_ms,
    {
        let ghost q0 = chan.queue();
        let (queued, _) = chan.buffered();
        let mut n: usize = 0;
        proof {
            assert(q0.skip(0) =~= q0);
            assert(q0.take(0) =~= Seq::<Metric>::empty());
            assert(self.out@ =~= old(self).out@ + bytes_of(q0.take(0)));
        }
        while self.out.len() < self.low
            invariant
                chan.wf(),
                q0 == old(chan).queue(),
                q0.len() == queued,
                n <= q0.len(),
                chan.queue() == q0.skip(n as int),
                chan.capacity() == old(chan).capacity(),
                chan.senders() == old(chan).senders(),
                self.out@ == old(self).out@ + bytes_of(q0.take(n as int)),
                n > 0 ==> (old(self).out@ + bytes_of(q0.take(n - 1))).len() < old(self).low,
                self.deadline == old(self).deadline,
                self.low == old(self).low,
                self.write_timeout_ms == old(self).write_timeout_ms,
            ensures
                n == q0.len() || self.out@.len() >= old(self).low,
            decreases q0.len() - n,
        {
            match chan.poll() {
                None => {
                    break;
                },
                Some(m) => {
                    proof {
                        assert(m == q0[n as int]);
                        assert(q0.take(n as int + 1).drop_last() =~= q0.take(n as int));
                        assert(chan.queue() =~= q0.skip(n as int + 1));
                        assert(self.out@ + m.0@ =~= old(self).out@ + bytes_of(q0.take(n as int + 1)));
                        assert(q0.take(n as int + 1 - 1) =~= q0.take(n as int));
                    }
                    self.out.extend_from_slice(m.0.as_slice());
                    proof {
                        assert(self.out@ =~= old(self).out@ + bytes_of(q0.take(n as int + 1)));
                    }
                    n = n + 1;
                },
            }
        }
        n
    }

    /// The buffered bytes were handed to the socket at `now`, which took the
    /// first `written` of them. Returns false, the write timeout, when the
    /// buffer was not empty, nothing was written and the deadline had
    /// passed. Otherwise the written bytes leave the buffer; progress that
    /// empties it sets the deadline a day away, and progress that leaves bytes
    /// behind sets it a write timeout away.
    pub fn flushed(&mut self, written: usize, now: u64) -> (r: bool)
        requires
            written <= old(self).out@.len(),
        ensures
            r == !(old(self).out@.len() > 0 && written == 0 && old(self).deadline < now),
            final(self).out@ == old(self).out@.skip(written as int),
            final(self).deadline == if written > 0 && written < old(self).out@.len() {
                clamp_u64((now + old(self).write_timeout_ms) as nat)
            } else if written > 0 {
                clamp_u64((now + DAY_MS) as nat)
            } else {
                old(self).deadline
            },
            final(self).low == old(self).low,
            final(self).write_timeout_ms == old(self).write_timeout_ms,
    {
        let old_len = self.out.len();
        if old_len == 0 {
            proof {
                assert(self.out@ =~= old(self).out@.skip(0));
            }
            return true;
        }
        if written == 0 {
            proof {
                assert(self.out@ =~= old(self).out@.skip(0));
            }
            return self.deadline >= now;
        }
        let tail = self.out.split_off(written);
        self.out = tail;
        if written < old_len {
            self.deadline = now.saturating_add(self.write_timeout_ms);
        } else {
            self.deadline = now.saturating_add(DAY_MS);
        }
        true
    }

    /// Decides on a read of the socket. Data or a read error end the
    /// connection with an error. Once the peer has closed, the buffer is
    /// drained and the connection then ends with success. Otherwise metrics
    /// are taken only while the buffer is below the low watermark.
    pub fn after_read(&self, ev: ReadEvent) -> (r: Step)
        ensures
            ev == ReadEvent::Data || ev == ReadEvent::Failed ==> r == Step::Abort,
            ev == ReadEvent::Closed ==> r == if self.out@.len() == 0 { Step::Finish } else { Step::Drain },
            ev == ReadEvent::Nothing ==> r == if self.out@.len() < self.low { Step::Fill } else { Step::Drain },
    {
        match ev {
            ReadEvent::Data | ReadEvent::Failed => Step::Abort,
            ReadEvent::Closed => {
                if self.out.len() == 0 {
                    Step::Finish
                } else {
                    Step::Drain
                }
            },
            ReadEvent::Nothing => {
                if self.out.len() < self.low {
                    Step::Fill
                } else {
                    Step::Drain
                }
            },
        }
    }

    /// Whether the connection is done: every producer handle is gone,
    /// nothing is queued and nothing is left to write.
    pub fn finished(&self, chan: &Channel) -> (r: bool)
        ensures
            r == (chan.senders() == 0 && chan.queue().len() == 0 && self.out@.len() == 0),
    {
        chan.is_done() && self.out.len() == 0
    }
}

} // verus!
