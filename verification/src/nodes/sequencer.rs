//! A four-step sequencer: each rising edge of its gate moves to the next of
//! four inputs.
use vstd::prelude::*;

verus! {

/// The number of steps.
pub const STEPS: usize = 4;

/// The current step and whether its gate was high on the last sample.
pub struct Sequencer {
    index: usize,
    gate_on: bool,
}

impl Sequencer {
    pub closed spec fn step_index(&self) -> nat {
        self.index as nat
    }

    pub closed spec fn gate_was_on(&self) -> bool {
        self.gate_on
    }

    /// The step lies among the four.
    pub open spec fn inv(&self) -> bool {
        self.step_index() < STEPS
    }

    /// A sequencer at step 0 with its gate low. The sample rate plays no part.
    pub fn new(_sample_rate: u32) -> (r: Self)
        ensures
            r.inv(),
            r.step_index() == 0,
            !r.gate_was_on(),
    {
        Sequencer { index: 0, gate_on: false }
    }

    /// Reads its gate level for one sample and returns the step whose input
    /// is output: the next step on a rising edge, the same step otherwise.
    pub fn advance(&mut self, gate_high: bool) -> (step: usize)
        requires
            old(self).inv(),
        ensures
            final(self).inv(),
            final(self).step_index() == (if gate_high && !old(self).gate_was_on() {
                (old(self).step_index() + 1) % (STEPS as nat)
            } else {
                old(self).step_index()
            }),
            final(self).gate_was_on() == gate_high,
            step == final(self).step_index(),
    {
        if gate_high && !self.gate_on {
            self.index = (self.index + 1) % STEPS;
        }
        self.gate_on = gate_high;
        self.index
    }
}

} // verus!
