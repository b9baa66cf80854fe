use vstd::prelude::*;
use std::time::{Duration, Instant};

verus! {

/// A one-shot timer on the monotonic clock.
#[derive(Debug, Clone)]
pub struct Timer {
    duration: Duration,
    duration_nanos: u128,
    start: Instant,
}

impl Timer {
    /// The duration the timer was made with.
    pub closed spec fn spec_duration(self) -> Duration {
        self.duration
    }

    pub closed spec fn spec_duration_nanos(self) -> u128 {
        self.duration_nanos
    }

    /// Starts a timer that finishes once more than `duration` has passed.
    pub fn new(duration: Duration) -> (r: Timer)
        ensures
            r.spec_duration() == duration,
    {
        Timer { start: Instant::now(), duration, duration_nanos: duration.as_nanos() }
    }

    /// Starts the timer again from now.
    pub fn reset(&mut self)
        ensures
            final(self).spec_duration() == old(self).spec_duration(),
            final(self).spec_duration_nanos() == old(self).spec_duration_nanos(),
    {
        self.start = Instant::now();
    }

    /// Whether more than the timer's duration has passed since its start.
    pub fn is_finished(&self) -> bool {
        let elapsed = Instant::now().saturating_duration_since(self.start);
        self.is_finished_after(elapsed.as_nanos())
    }

    /// Whether a timer whose start lies `elapsed_nanos` in the past is
    /// finished.
    pub fn is_finished_after(&self, elapsed_nanos: u128) -> (r: bool)
        ensures
            r == (elapsed_nanos > self.spec_duration_nanos()),
    {
        elapsed_nanos > self.duration_nanos
    }

    /// The duration the timer was made with.
    pub fn duration(&self) -> (r: Duration)
        ensures
            r == self.spec_duration(),
    {
        self.duration
    }

    /// The timer's duration in nanoseconds.
    pub fn duration_nanos(&self) -> (r: u128)
        ensures
            r == self.spec_duration_nanos(),
    {
        self.duration_nanos
    }

    /// Nanoseconds since the timer's start.
    pub fn elapsed_nanos(&self) -> u128 {
        Instant::now().saturating_duration_since(self.start).as_nanos()
    }
}

} // verus!
