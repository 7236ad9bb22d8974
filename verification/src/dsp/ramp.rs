//! A linear ramp between two levels over a number of samples, tracked by the
//! samples that have passed. The level in between is an interpolation that
//! the caller computes from `start`, `target` and the progress.
use vstd::prelude::*;

verus! {

/// A ramp from `start` to `target` over `duration` samples, of which
/// `running_sample` have passed.
#[derive(Clone, Copy)]
pub struct Ramp<V> {
    pub start: V,
    pub target: V,
    pub duration: usize,
    pub running_sample: usize,
}

impl<V: Copy> Ramp<V> {
    /// The ramp that has not started yet.
    pub open spec fn fresh(start: V, target: V, duration: usize) -> Ramp<V> {
        Ramp { start, target, duration, running_sample: 0 }
    }

    /// The ramp one sample further on.
    pub open spec fn advanced(self) -> Ramp<V> {
        Ramp { running_sample: (self.running_sample + 1) as usize, ..self }
    }

    /// Whether the ramp is still running after one more sample.
    pub open spec fn runs_on(self) -> bool {
        self.running_sample + 1 < self.duration
    }

    /// A ramp can advance: it has not passed its end, or has not started.
    pub open spec fn can_advance(self) -> bool {
        self.running_sample < self.duration || self.running_sample == 0
    }

    /// A ramp from `start` to `target` over `duration` samples, at its start.
    pub fn new(start: V, target: V, duration: usize) -> (r: Self)
        ensures
            r == Self::fresh(start, target, duration),
    {
        Ramp { start, target, duration, running_sample: 0 }
    }

    /// The number of samples the ramp lasts.
    pub fn duration(&self) -> (d: usize)
        ensures
            d == self.duration,
    {
        self.duration
    }

    /// Moves one sample on; true while the ramp has not reached its target.
    /// A ramp that has ended stays at its target and keeps answering false.
    pub fn tick(&mut self) -> (running: bool)
        requires
            old(self).running_sample < usize::MAX,
        ensures
            *final(self) == old(self).advanced(),
            running == old(self).runs_on(),
            running ==> final(self).can_advance(),
    {
        self.running_sample = self.running_sample + 1;
        self.running_sample < self.duration
    }
}

} // verus!
