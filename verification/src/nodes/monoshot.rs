//! A monostable: a rising edge of its trigger makes its gate high for a set
//! number of samples; triggers while high are ignored.
use vstd::prelude::*;
use crate::dsp::state_machine::{State, StateMachine};

verus! {

/// Idle, remembering whether the trigger was high on the last step; or high
/// with the number of further steps it stays high.
#[derive(Clone, Copy, PartialEq, Eq, Structural)]
pub enum MonoshotState {
    Idle(bool),
    High(usize),
}

impl Default for MonoshotState {
    fn default() -> (r: Self)
        ensures
            r == MonoshotState::Idle(false),
    {
        MonoshotState::Idle(false)
    }
}

/// What the monostable reads on one step.
pub struct MonoshotContext {
    pub trigger_high: bool,
    pub duration_samples: usize,
}

impl MonoshotState {
    /// The successor state.
    pub open spec fn step(self, trigger_high: bool, duration_samples: usize) -> MonoshotState {
        match self {
            MonoshotState::Idle(prev_high) => {
                if !prev_high && trigger_high {
                    MonoshotState::High(
                        if duration_samples == 0 {
                            0
                        } else {
                            (duration_samples - 1) as usize
                        },
                    )
                } else {
                    MonoshotState::Idle(trigger_high)
                }
            },
            MonoshotState::High(remaining) => {
                if remaining == 0 {
                    MonoshotState::Idle(trigger_high)
                } else {
                    MonoshotState::High((remaining - 1) as usize)
                }
            },
        }
    }

    /// The output level of the state: high or low.
    pub open spec fn is_high(self) -> bool {
        self is High
    }

    /// The state after a sequence of trigger levels, each step with the same
    /// duration.
    pub open spec fn run(self, triggers: Seq<bool>, duration_samples: usize) -> MonoshotState
        decreases triggers.len(),
    {
        if triggers.len() == 0 {
            self
        } else {
            self.run(triggers.drop_last(), duration_samples).step(
                triggers.last(),
                duration_samples,
            )
        }
    }

    /// The output level: high or low.
    pub fn value(&self) -> (high: bool)
        ensures
            high == self.is_high(),
    {
        match self {
            MonoshotState::Idle(_) => false,
            MonoshotState::High(_) => true,
        }
    }
}

impl State<MonoshotContext> for MonoshotState {
    open spec fn transition(&self, context: MonoshotContext) -> Self {
        self.step(context.trigger_high, context.duration_samples)
    }

    open spec fn accepts(&self, context: MonoshotContext) -> bool {
        true
    }

    fn next_state(&mut self, context: MonoshotContext) -> (next: Self) {
        match self {
            MonoshotState::Idle(prev) => {
                if !*prev && context.trigger_high {
                    MonoshotState::High(context.duration_samples.saturating_sub(1))
                } else {
                    MonoshotState::Idle(context.trigger_high)
                }
            },
            MonoshotState::High(remaining) => {
                if *remaining == 0 {
                    MonoshotState::Idle(context.trigger_high)
                } else {
                    MonoshotState::High(*remaining - 1)
                }
            },
        }
    }
}

/// The number of steps a gate lasts: the duration, but at least one.
pub open spec fn gate_len(duration_samples: usize) -> int {
    if duration_samples == 0 {
        1
    } else {
        duration_samples as int
    }
}

/// The step at which the latest gate among the triggers `hs` started, if
/// any. A gate starts at a rising edge of the trigger (a high level after a
/// low one, or at the start), unless the edge falls within an earlier gate
/// of `m` steps or on the step just after it.
pub open spec fn last_gate_start(hs: Seq<bool>, m: int) -> Option<int>
    decreases hs.len(),
{
    if hs.len() == 0 {
        None
    } else {
        let t = hs.len() - 1;
        let prev = last_gate_start(hs.drop_last(), m);
        let in_gate = match prev {
            Some(s) => t <= s + m,
            None => false,
        };
        if !in_gate && hs[t] && (t == 0 || !hs[t - 1]) {
            Some(t)
        } else {
            prev
        }
    }
}

/// Whether a gate is high on the last step of `hs`: a gate started at
/// `s` is high on steps `s` to `s + m - 1`.
pub open spec fn gate_high_at_end(hs: Seq<bool>, m: int) -> bool {
    match last_gate_start(hs, m) {
        Some(s) => hs.len() - 1 < s + m,
        None => false,
    }
}

/// Law: over any sequence of trigger levels, starting idle, the output is
/// high exactly on the steps of a gate: each gate starts at a rising edge
/// of the trigger seen while idle, lasts `max(d, 1)` steps whatever the
/// trigger does, and is followed by a low step whose trigger level only
/// counts as the level before the next edge.
pub proof fn lemma_gates_over_a_run(hs: Seq<bool>, duration_samples: usize)
    requires
        hs.len() > 0,
    ensures
        MonoshotState::Idle(false).run(hs, duration_samples).is_high() == gate_high_at_end(
            hs,
            gate_len(duration_samples),
        ),
{
    lemma_run_state(hs, duration_samples);
}

/// The state after a run: high with the steps left of the current gate, or
/// idle with the last trigger level.
proof fn lemma_run_state(hs: Seq<bool>, duration_samples: usize)
    ensures
        hs.len() == 0 ==> MonoshotState::Idle(false).run(hs, duration_samples) == MonoshotState::Idle(false),
        hs.len() > 0 ==> MonoshotState::Idle(false).run(hs, duration_samples) == (match last_gate_start(
            hs,
            gate_len(duration_samples),
        ) {
            Some(s) => if hs.len() - 1 < s + gate_len(duration_samples) {
                MonoshotState::High((s + gate_len(duration_samples) - hs.len()) as usize)
            } else {
                MonoshotState::Idle(hs.last())
            },
            None => MonoshotState::Idle(hs.last()),
        }),
        hs.len() > 0 ==> (last_gate_start(hs, gate_len(duration_samples)) matches Some(s) ==> 0 <= s
            < hs.len()),
    decreases hs.len(),
{
    if hs.len() > 0 {
        let p = hs.drop_last();
        lemma_run_state(p, duration_samples);
        let t = hs.len() - 1;
        if t > 0 {
            assert(p.last() == hs[t - 1]);
        }
    }
}

/// Law: once high with `remaining` further steps, its gate stays high for
/// those steps whatever the trigger does, and then falls.
pub proof fn lemma_holds_while_high(remaining: usize, triggers: Seq<bool>, duration_samples: usize)
    requires
        triggers.len() <= remaining + 1,
    ensures
        triggers.len() <= remaining ==> MonoshotState::High(remaining).run(
            triggers,
            duration_samples,
        ) == MonoshotState::High((remaining - triggers.len()) as usize),
        triggers.len() == remaining + 1 ==> MonoshotState::High(remaining).run(
            triggers,
            duration_samples,
        ) == MonoshotState::Idle(triggers.last()),
    decreases triggers.len(),
{
    if triggers.len() > 0 {
        lemma_holds_while_high(remaining, triggers.drop_last(), duration_samples);
    }
}

/// Law: a rising edge from idle with a duration of `d >= 1` samples gives a
/// gate that is high on that step and the `d - 1` steps after it, and low on
/// the step after those.
pub proof fn lemma_pulse_length(triggers: Seq<bool>, duration_samples: usize)
    requires
        duration_samples >= 1,
        1 <= triggers.len() <= duration_samples + 1,
        triggers[0],
    ensures
        triggers.len() <= duration_samples ==> MonoshotState::Idle(false).run(
            triggers,
            duration_samples,
        ).is_high(),
        triggers.len() == duration_samples + 1 ==> !MonoshotState::Idle(false).run(
            triggers,
            duration_samples,
        ).is_high(),
{
    let first = triggers.take(1);
    let rest = triggers.skip(1);
    lemma_run_split(MonoshotState::Idle(false), first, rest, duration_samples);
    assert(first.drop_last() =~= Seq::<bool>::empty());
    assert(MonoshotState::Idle(false).run(first.drop_last(), duration_samples) == MonoshotState::Idle(false));
    assert(first.last() == triggers[0]);
    assert(MonoshotState::Idle(false).run(first, duration_samples) == MonoshotState::High(
        (duration_samples - 1) as usize,
    ));
    assert(triggers =~= first + rest);
    lemma_holds_while_high((duration_samples - 1) as usize, rest, duration_samples);
    if rest.len() > 0 {
        assert(rest.last() == triggers.last());
    }
}

/// Running over two sequences in turn is running over their concatenation.
pub proof fn lemma_run_split(s: MonoshotState, a: Seq<bool>, b: Seq<bool>, d: usize)
    ensures
        s.run(a + b, d) == s.run(a, d).run(b, d),
    decreases b.len(),
{
    if b.len() == 0 {
        assert(a + b =~= a);
    } else {
        assert((a + b).drop_last() =~= a + b.drop_last());
        lemma_run_split(s, a, b.drop_last(), d);
    }
}

/// The monostable node.
pub struct Monoshot {
    sample_rate: u32,
    state_machine: StateMachine<MonoshotContext, MonoshotState>,
}

impl View for Monoshot {
    type V = MonoshotState;

    closed spec fn view(&self) -> MonoshotState {
        self.state_machine@
    }
}

impl Monoshot {
    /// An idle monostable for the given sample rate.
    pub fn new(sample_rate: u32) -> (r: Self)
        ensures
            r@ == MonoshotState::Idle(false),
            r.sample_rate() == sample_rate,
    {
        Monoshot { sample_rate, state_machine: StateMachine::with_state(MonoshotState::Idle(false)) }
    }

    pub closed spec fn sample_rate(&self) -> u32 {
        self.sample_rate
    }

    /// The sample rate that durations in seconds are converted with.
    pub fn get_sample_rate(&self) -> (r: u32)
        ensures
            r == self.sample_rate(),
    {
        self.sample_rate
    }

    /// One step with the trigger level and the pulse length in samples;
    /// returns the output level.
    pub fn process(&mut self, trigger_high: bool, duration_samples: usize) -> (gate_high: bool)
        ensures
            final(self)@ == old(self)@.step(trigger_high, duration_samples),
            final(self).sample_rate() == old(self).sample_rate(),
            gate_high == final(self)@.is_high(),
    {
        self.state_machine.next(MonoshotContext { trigger_high, duration_samples }).value()
    }
}

} // verus!
