//! Stopwatch behind the `Server-Timing` header.

use vstd::prelude::*;

verus! {

/// One measured step: what was done and how long it took.
#[derive(Debug, Clone, Copy)]
pub struct TimingSample {
    pub event: &'static str,
    pub elapsed_micros: u64,
}

/// Measures the time from one sample to the next. Times are microseconds on
/// a clock that does not run backwards.
#[derive(Debug, Clone, Copy, PartialEq, Eq, Structural)]
pub struct PerfTimer {
    pub prev_time: u64,
    /// Whether detailed timing is switched on; without it nothing is
    /// sampled.
    pub enabled: bool,
}

impl PerfTimer {
    /// A timer started at `now`.
    pub fn new(now: u64, enabled: bool) -> (r: Self)
        ensures
            r.prev_time == now,
            r.enabled == enabled,
    {
        PerfTimer { prev_time: now, enabled }
    }

    /// The time since the previous sample, and the timer restarted at `now`.
    /// A clock reading before the previous one counts as no time at all.
    pub fn sample(&mut self, event: &'static str, now: u64) -> (r: Option<TimingSample>)
        ensures
            final(self).enabled == old(self).enabled,
            old(self).enabled ==> final(self).prev_time == now && r == Some(
                TimingSample {
                    event,
                    elapsed_micros: if now >= old(self).prev_time {
                        (now - old(self).prev_time) as u64
                    } else {
                        0
                    },
                },
            ),
            !old(self).enabled ==> r is None && final(self).prev_time == old(self).prev_time,
    {
        if self.enabled {
            let elapsed = if now >= self.prev_time {
                now - self.prev_time
            } else {
                0
            };
            self.prev_time = now;
            Some(TimingSample { event, elapsed_micros: elapsed })
        } else {
            None
        }
    }
}

} // verus!
