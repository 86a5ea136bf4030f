use vstd::prelude::*;

verus! {

/// The length in seconds of an interval of `minutes` minutes, or `None` when
/// it does not fit in a `u64`.
pub fn interval_seconds(minutes: u64) -> (r: Option<u64>)
    ensures
        minutes * 60 <= u64::MAX ==> r == Some((minutes * 60) as u64),
        minutes * 60 > u64::MAX ==> r is None,
{
    minutes.checked_mul(60)
}

/// What the driver of a countdown does next.
#[derive(Debug, Clone, Copy, PartialEq, Eq, Structural)]
pub enum TimerStep {
    /// Advance the progress display by one second, then wait one second.
    Tick,
    /// The interval is over: close the display and notify.
    Finished,
}

/// A countdown over a fixed number of one-second ticks.
#[derive(Debug)]
pub struct Countdown {
    pub elapsed: u64,
    pub total: u64,
}

impl Countdown {
    /// No more ticks have elapsed than the countdown has.
    pub open spec fn wf(&self) -> bool {
        self.elapsed <= self.total
    }

    /// A countdown of `total` seconds that has not started.
    pub fn new(total: u64) -> (r: Countdown)
        ensures
            r.wf(),
            r.elapsed == 0,
            r.total == total,
    {
        Countdown { elapsed: 0, total }
    }

    /// The next step: a tick while seconds remain (counting it), else
    /// `Finished`, which leaves the countdown as it is.
    pub fn step(&mut self) -> (r: TimerStep)
        requires
            old(self).wf(),
        ensures
            final(self).wf(),
            final(self).total == old(self).total,
            old(self).elapsed < old(self).total ==> r == TimerStep::Tick && final(self).elapsed == old(self).elapsed
                + 1,
            old(self).elapsed == old(self).total ==> r == TimerStep::Finished && final(self).elapsed
                == old(self).elapsed,
    {
        if self.elapsed < self.total {
            self.elapsed = self.elapsed + 1;
            TimerStep::Tick
        } else {
            TimerStep::Finished
        }
    }

    /// Whole seconds still to run.
    pub fn remaining(&self) -> (r: u64)
        requires
            self.wf(),
        ensures
            r == self.total - self.elapsed,
    {
        self.total - self.elapsed
    }
}

} // verus!
