use vstd::prelude::*;

use crate::types::Nanos;

verus! {

/// What a timer holds: its period and the time accumulated towards the next firing.
pub struct TimerView {
    pub period: Nanos,
    pub elapsed: Nanos,
}

/// The timer after `delta` more time has passed, and whether it fired.
///
/// When the accumulated time reaches the period, the largest multiple of the period is
/// taken off, so one call fires at most once however many periods it spans.
pub open spec fn tick_spec(t: TimerView, delta: Nanos) -> (TimerView, bool) {
    let acc = t.elapsed + delta;
    if acc >= t.period {
        (TimerView { elapsed: (acc % (t.period as int)) as Nanos, ..t }, true)
    } else {
        (TimerView { elapsed: acc as Nanos, ..t }, false)
    }
}

/// A periodic timer that accumulates elapsed time.
pub struct Timer {
    duration: Nanos,
    elapsed: Nanos,
}

impl View for Timer {
    type V = TimerView;

    closed spec fn view(&self) -> TimerView {
        TimerView { period: self.duration, elapsed: self.elapsed }
    }
}

impl Timer {
    /// A timer is usable when its period is not zero.
    pub open spec fn wf(&self) -> bool {
        self@.period > 0
    }

    /// A timer with the given period and nothing accumulated. Only a timer with a
    /// non-zero period can tick.
    pub fn new(duration: Nanos) -> (r: Timer)
        ensures
            r@ == (TimerView { period: duration, elapsed: 0 }),
            r.wf() == (duration > 0),
    {
        Timer { duration, elapsed: 0 }
    }

    /// Adds `delta` to the accumulated time; returns true when at least one full period
    /// has been reached, keeping only the remainder below the period.
    pub fn tick(&mut self, delta: Nanos) -> (fired: bool)
        requires
            old(self).wf(),
        ensures
            (final(self)@, fired) == tick_spec(old(self)@, delta),
            final(self).wf(),
    {
        let acc: u128 = self.elapsed as u128 + delta as u128;
        if acc >= self.duration as u128 {
            let rest: u128 = acc % (self.duration as u128);
            self.elapsed = rest as u64;
            true
        } else {
            self.elapsed = acc as u64;
            false
        }
    }

    pub fn duration(&self) -> (r: Nanos)
        ensures
            r == self@.period,
    {
        self.duration
    }

    /// The time accumulated since the last firing.
    pub fn elapsed(&self) -> (r: Nanos)
        ensures
            r == self@.elapsed,
    {
        self.elapsed
    }
}

} // verus!
