use std::collections::VecDeque;
use vstd::prelude::*;
use crate::metric::{Metric, metric_line, line, whitespace, is_metric_line};

verus! {

/// The queue after one enqueue of `m`: a queue holding more than `max`
/// metrics drops it, any other keeps it at the back.
pub open spec fn send_spec(q: Seq<Metric>, max: nat, m: Metric) -> Seq<Metric> {
    if q.len() > max { q } else { q.push(m) }
}

/// The queue after enqueueing each of `ms` in turn.
pub open spec fn send_all(q: Seq<Metric>, max: nat, ms: Seq<Metric>) -> Seq<Metric>
    decreases ms.len(),
{
    if ms.len() == 0 {
        q
    } else {
        send_spec(send_all(q, max, ms.drop_last()), max, ms.last())
    }
}

/// The lossy channel between the producer handles and the engine: a FIFO
/// queue of metrics that drops a new metric while it holds more than
/// `max_metrics_buffered`, with the number of producer handles still open.
pub struct Channel {
    queue: VecDeque<Metric>,
    max_metrics_buffered: usize,
    senders: usize,
}

impl Channel {
    /// The metrics queued, oldest first.
    pub closed spec fn queue(&self) -> Seq<Metric> {
        self.queue@
    }

    pub closed spec fn capacity(&self) -> nat {
        self.max_metrics_buffered as nat
    }

    pub closed spec fn senders(&self) -> nat {
        self.senders as nat
    }

    /// The queue never holds more than one metric past its capacity.
    pub open spec fn wf(&self) -> bool {
        self.queue().len() <= self.capacity() + 1
    }

    /// Enqueues `metric` unless more than the capacity is queued; returns
    /// whether it was kept.
    pub fn send(&mut self, metric: Metric) -> (r: bool)
        requires
            old(self).wf(),
        ensures
            final(self).wf(),
            r == (old(self).queue().len() <= old(self).capacity()),
            final(self).queue() == send_spec(old(self).queue(), old(self).capacity(), metric),
            final(self).capacity() == old(self).capacity(),
            final(self).senders() == old(self).senders(),
    {
        if self.queue.len() > self.max_metrics_buffered {
            return false;
        }
        self.queue.push_back(metric);
        true
    }

    /// Encodes `value` of `name` at `secs` seconds since the epoch and
    /// enqueues it as `send` does. Returns `None`, enqueueing nothing, where
    /// the name or the value holds whitespace; otherwise whether
    /// the metric was kept.
    pub fn add_value_at(&mut self, name: &[u8], value: &[u8], secs: u64) -> (r: Option<bool>)
        requires
            old(self).wf(),
        ensures
            final(self).wf(),
            r is None <==> !(whitespace(name@) == 0 && whitespace(value@) == 0),
            r is None ==> final(self).queue() == old(self).queue(),
            r == Some(true) ==> old(self).queue().len() <= old(self).capacity()
                && final(self).queue().len() == old(self).queue().len() + 1
                && final(self).queue().drop_last() == old(self).queue()
                && final(self).queue().last().0@ == line(name@, value@, secs as nat)
                && is_metric_line(final(self).queue().last().0@),
            r == Some(false) ==> old(self).queue().len() > old(self).capacity()
                && final(self).queue() == old(self).queue(),
            final(self).capacity() == old(self).capacity(),
            final(self).senders() == old(self).senders(),
    {
        match metric_line(name, value, secs) {
            None => None,
            Some(m) => {
                let kept = self.send(m);
                proof {
                    if kept {
                        assert(self.queue().drop_last() =~= old(self).queue());
                    }
                }
                Some(kept)
            },
        }
    }

    /// The number of metrics queued and the capacity.
    pub fn buffered(&self) -> (r: (usize, usize))
        ensures
            r.0 as nat == self.queue().len(),
            r.1 as nat == self.capacity(),
    {
        (self.queue.len(), self.max_metrics_buffered)
    }

    /// Dequeues the oldest metric, if any.
    pub fn poll(&mut self) -> (r: Option<Metric>)
        requires
            old(self).wf(),
        ensures
            final(self).wf(),
            old(self).queue().len() == 0 ==> r is None && final(self).queue() == old(self).queue(),
            old(self).queue().len() > 0 ==> r == Some(old(self).queue()[0])
                && final(self).queue() == old(self).queue().drop_first(),
            final(self).capacity() == old(self).capacity(),
            final(self).senders() == old(self).senders(),
    {
        let r = self.queue.pop_front();
        proof {
            if old(self).queue().len() > 0 {
                assert(self.queue@ =~= old(self).queue().drop_first());
            }
        }
        r
    }

    /// Whether every producer handle is gone and nothing is left to dequeue.
    pub fn is_done(&self) -> (r: bool)
        ensures
            r == (self.senders() == 0 && self.queue().len() == 0),
    {
        self.senders == 0 && self.queue.len() == 0
    }

    /// The number of producer handles still open.
    pub fn producers(&self) -> (r: usize)
        ensures
            r as nat == self.senders(),
    {
        self.senders
    }

    /// Records one more producer handle.
    pub fn add_sender(&mut self)
        requires
            old(self).senders() < usize::MAX,
        ensures
            final(self).senders() == old(self).senders() + 1,
            final(self).queue() == old(self).queue(),
            final(self).capacity() == old(self).capacity(),
    {
        self.senders = self.senders + 1;
    }

    /// Records that a producer handle was dropped.
    pub fn remove_sender(&mut self)
        requires
            old(self).senders() > 0,
        ensures
            final(self).senders() == old(self).senders() - 1,
            final(self).queue() == old(self).queue(),
            final(self).capacity() == old(self).capacity(),
    {
        self.senders = self.senders - 1;
    }
}

/// An empty channel of capacity `max_metrics_buffered` with one producer
/// handle.
pub fn channel(max_metrics_buffered: usize) -> (r: Channel)
    ensures
        r.wf(),
        r.queue() == Seq::<Metric>::empty(),
        r.capacity() == max_metrics_buffered as nat,
        r.senders() == 1,
{
    Channel { queue: VecDeque::new(), max_metrics_buffered, senders: 1 }
}

/// Enqueueing at most `max` metrics into an empty channel keeps all of them,
/// in the order they were sent, so draining the channel yields them in
/// submission order.
pub proof fn lemma_fifo_within_capacity(max: nat, ms: Seq<Metric>)
    requires
        ms.len() <= max,
    ensures
        send_all(Seq::empty(), max, ms) == ms,
    decreases ms.len(),
{
    if ms.len() > 0 {
        lemma_fifo_within_capacity(max, ms.drop_last());
        assert(ms.drop_last().push(ms.last()) =~= ms);
    }
}

/// From an empty channel of capacity `max`, exactly the first `max + 1`
/// metrics are kept and every later one is dropped, so the count never
/// exceeds `max + 1`.
pub proof fn lemma_overflow_drops(max: nat, ms: Seq<Metric>)
    ensures
        send_all(Seq::empty(), max, ms) == ms.take(if ms.len() <= max + 1 { ms.len() as int } else { (max + 1) as int }),
        send_all(Seq::empty(), max, ms).len() <= max + 1,
    decreases ms.len(),
{
    if ms.len() > 0 {
        lemma_overflow_drops(max, ms.drop_last());
        if ms.len() <= max + 1 {
            assert(ms.drop_last().take(ms.len() - 1).push(ms.last()) =~= ms.take(ms.len() as int));
        } else {
            assert(ms.drop_last().take((max + 1) as int) =~= ms.take((max + 1) as int));
        }
    }
}

} // verus!
