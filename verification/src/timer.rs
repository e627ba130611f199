//! A deadline timer over plain nanosecond counts. The caller supplies
//! the current time, so the arithmetic is checked here and reading the
//! clock stays outside.

use vstd::prelude::*;

verus! {

/// A deadline: a starting instant and a duration, in nanoseconds.
#[derive(Clone, Copy, Debug, PartialEq, Eq, Structural)]
pub struct Timer {
    pub begin_ns: u64,
    pub duration_ns: u64,
}

impl Timer {
    /// A timer running from `now_ns` for `duration_ns`.
    pub fn new(duration_ns: u64, now_ns: u64) -> (r: Self)
        ensures
            r.begin_ns == now_ns,
            r.duration_ns == duration_ns,
    {
        Timer { begin_ns: now_ns, duration_ns }
    }

    /// How long the timer has been running at `now_ns`.
    pub fn elapsed_duration(&self, now_ns: u64) -> (r: u64)
        requires
            now_ns >= self.begin_ns,
        ensures
            r == now_ns - self.begin_ns,
    {
        now_ns - self.begin_ns
    }

    /// Whether the deadline has passed at `now_ns`.
    pub fn is_over(&self, now_ns: u64) -> (r: bool)
        requires
            now_ns >= self.begin_ns,
        ensures
            r == (now_ns - self.begin_ns > self.duration_ns),
    {
        self.elapsed_duration(now_ns) > self.duration_ns
    }

    /// Stops the clock at `now_ns`.
    pub fn freeze(self, now_ns: u64) -> (r: FreezedTimer)
        ensures
            r.freezed_ns == now_ns,
            r.timer == self,
    {
        FreezedTimer { freezed_ns: now_ns, timer: self }
    }
}

/// A timer whose clock is stopped, remembering when it was stopped.
#[derive(Clone, Copy, Debug, PartialEq, Eq, Structural)]
pub struct FreezedTimer {
    pub freezed_ns: u64,
    pub timer: Timer,
}

impl FreezedTimer {
    /// Resumes at `now_ns`: the time spent frozen does not count against
    /// the deadline.
    pub fn restart(self, now_ns: u64) -> (r: Timer)
        requires
            now_ns >= self.freezed_ns,
            self.timer.begin_ns + (now_ns - self.freezed_ns) <= u64::MAX,
        ensures
            r.begin_ns == self.timer.begin_ns + (now_ns - self.freezed_ns),
            r.duration_ns == self.timer.duration_ns,
    {
        Timer {
            begin_ns: self.timer.begin_ns + (now_ns - self.freezed_ns),
            duration_ns: self.timer.duration_ns,
        }
    }
}

} // verus!
