use std::sync::Arc;
use std::time::Duration;
use vstd::prelude::*;

verus! {

/// Whole seconds of a duration, as `Duration::as_secs` reports them.
pub uninterp spec fn secs_of(d: Duration) -> u64;

/// The fractional part of a duration in whole milliseconds, as
/// `Duration::subsec_millis` reports it.
pub uninterp spec fn subsec_millis_of(d: Duration) -> u32;

/// Relies on `Duration::as_secs`: the whole seconds of the duration.
pub assume_specification[ Duration::as_secs ](d: &Duration) -> (r: u64)
    ensures
        r == secs_of(*d),
;

/// Relies on `Duration::subsec_millis`: the fractional part in whole
/// milliseconds, which std documents as below one thousand.
pub assume_specification[ Duration::subsec_millis ](d: &Duration) -> (r: u32)
    ensures
        r == subsec_millis_of(*d),
        r < 1000,
;

/// Relies on `Duration::new`: with fewer than a billion nanoseconds there is no
/// carry, so the seconds are kept and the milliseconds are `nanos / 1_000_000`.
pub assume_specification[ Duration::new ](secs: u64, nanos: u32) -> (r: Duration)
    requires
        nanos < 1_000_000_000,
    ensures
        secs_of(r) == secs,
        subsec_millis_of(r) == nanos / 1_000_000,
;

/// The length of a duration in whole milliseconds.
pub open spec fn duration_ms(d: Duration) -> nat {
    secs_of(d) as nat * 1000 + subsec_millis_of(d) as nat
}

/// A count clamped to what fits in a `u64`.
pub open spec fn clamp_u64(n: nat) -> u64 {
    if n <= u64::MAX as nat { n as u64 } else { u64::MAX }
}

/// Milliseconds in a duration, saturating at `u64::MAX`.
pub fn to_ms(dur: Duration) -> (r: u64)
    ensures
        r == clamp_u64(duration_ms(dur)),
{
    let secs = dur.as_secs();
    let millis = dur.subsec_millis();
    if secs > (u64::MAX - millis as u64) / 1000 {
        u64::MAX
    } else {
        secs * 1000 + millis as u64
    }
}

/// A duration of `ms` milliseconds.
pub fn from_ms(ms: u64) -> (r: Duration)
    ensures
        duration_ms(r) == ms as nat,
        secs_of(r) == ms / 1000,
        subsec_millis_of(r) == ms % 1000,
{
    Duration::new(ms / 1000, (ms % 1000) as u32 * 1_000_000)
}

/// Settings shared by the producer handle and the networking engine.
#[derive(Clone, Copy, Debug)]
pub struct Config {
    pub write_timeout: Duration,
    /// `(low, high)` watermarks of a connection's outbound buffer, in bytes.
    pub watermarks: (usize, usize),
    pub max_metrics_buffered: usize,
    /// Inclusive range of the reconnect delay, in milliseconds.
    pub reconnect_delay: (u64, u64),
}

impl Config {
    /// The watermarks are positive and ordered, and the delay range is not
    /// empty.
    pub open spec fn wf(&self) -> bool {
        &&& 0 < self.watermarks.0
        &&& self.watermarks.0 <= self.watermarks.1
        &&& self.reconnect_delay.0 <= self.reconnect_delay.1
    }

    /// A configuration with every default: a ten second write timeout,
    /// watermarks of 60000 and 1048576 bytes, room for 10000 metrics and a
    /// reconnect delay between 50 and 150 milliseconds.
    pub fn new() -> (r: Config)
        ensures
            r.wf(),
            secs_of(r.write_timeout) == 10,
            subsec_millis_of(r.write_timeout) == 0,
            duration_ms(r.write_timeout) == 10_000,
            r.watermarks == (60_000usize, 1_048_576usize),
            r.max_metrics_buffered == 10_000,
            r.reconnect_delay == (50u64, 150u64),
    {
        Config {
            write_timeout: Duration::new(10, 0),
            watermarks: (60_000, 1_048_576),
            max_metrics_buffered: 10000,
            reconnect_delay: (50, 150),
        }
    }

    /// Sets the reconnect delay to range from half of `delay` to one and a
    /// half of it, in whole milliseconds.
    pub fn reconnect_delay(&mut self, delay: Duration) -> (r: &mut Self)
        ensures
            ({
                let ms = clamp_u64(duration_ms(delay));
                *r == Config {
                    reconnect_delay: (ms / 2, clamp_u64(ms as nat + (ms / 2) as nat)),
                    ..*old(self)
                }
            }),
            *final(self) == *final(r),
    {
        let ms = to_ms(delay);
        let half = ms / 2;
        let upper = if ms > u64::MAX - half { u64::MAX } else { ms + half };
        self.reconnect_delay = (half, upper);
        self
    }

    /// Sets the bounds of the reconnect delay, in whole milliseconds.
    pub fn reconnect_delay_min_max(&mut self, min_delay: Duration, max_delay: Duration) -> (r: &mut Self)
        requires
            clamp_u64(duration_ms(min_delay)) <= clamp_u64(duration_ms(max_delay)),
        ensures
            *r == (Config {
                reconnect_delay: (clamp_u64(duration_ms(min_delay)), clamp_u64(duration_ms(max_delay))),
                ..*old(self)
            }),
            *final(self) == *final(r),
    {
        self.reconnect_delay = (to_ms(min_delay), to_ms(max_delay));
        self
    }

    /// Sets the time within which at least one byte must be written while
    /// the outbound buffer is not empty.
    pub fn write_timeout(&mut self, dur: Duration) -> (r: &mut Self)
        ensures
            *r == (Config { write_timeout: dur, ..*old(self) }),
            *final(self) == *final(r),
    {
        self.write_timeout = dur;
        self
    }

    /// Sets the low and high watermarks of each connection's outbound buffer.
    pub fn watermarks(&mut self, low: usize, high: usize) -> (r: &mut Self)
        requires
            low > 0,
            high >= low,
        ensures
            *r == (Config { watermarks: (low, high), ..*old(self) }),
            *final(self) == *final(r),
    {
        self.watermarks = (low, high);
        self
    }

    /// Sets how many metrics the channel holds before it drops new ones.
    pub fn max_metrics_buffered(&mut self, metrics: usize) -> (r: &mut Self)
        ensures
            *r == (Config { max_metrics_buffered: metrics, ..*old(self) }),
            *final(self) == *final(r),
    {
        self.max_metrics_buffered = metrics;
        self
    }

    /// A shared copy of this configuration.
    pub fn done(&mut self) -> (r: Arc<Config>)
        ensures
            *r == *old(self),
            *final(self) == *old(self),
    {
        Arc::new(*self)
    }
}

} // verus!
