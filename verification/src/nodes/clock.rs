//! A clock divider: its output goes high on every `division`-th rising edge
//! of its clock input, and stays high until the clock falls.
use vstd::prelude::*;
use crate::dsp::state_machine::{State, StateMachine};

verus! {

/// The divider's state: high, or low with the rising edges counted so far
/// and whether the clock was high on the last step.
#[derive(Clone, Copy, PartialEq, Eq, Structural)]
pub enum ClockDividerState {
    High,
    Low(u32, bool),
}

impl Default for ClockDividerState {
    fn default() -> (r: Self)
        ensures
            r == ClockDividerState::Low(0, false),
    {
        ClockDividerState::Low(0, false)
    }
}

/// What the divider reads on one step.
pub struct ClockDividerContext {
    pub input_high: bool,
    pub division: u32,
}

impl ClockDividerState {
    /// The count of a low state stays below the largest `u32`, so that a
    /// rising edge can be counted.
    pub open spec fn count_ok(self) -> bool {
        match self {
            ClockDividerState::High => true,
            ClockDividerState::Low(count, _) => count < u32::MAX,
        }
    }

    /// The successor state.
    pub open spec fn step(self, input_high: bool, division: u32) -> ClockDividerState {
        match self {
            ClockDividerState::High => {
                if !input_high {
                    ClockDividerState::Low(0, false)
                } else {
                    ClockDividerState::High
                }
            },
            ClockDividerState::Low(count, prev_input_high) => {
                if input_high && !prev_input_high {
                    if count >= division - 1 {
                        ClockDividerState::High
                    } else {
                        ClockDividerState::Low((count + 1) as u32, true)
                    }
                } else {
                    ClockDividerState::Low(count, input_high)
                }
            },
        }
    }
}

impl State<ClockDividerContext> for ClockDividerState {
    open spec fn transition(&self, context: ClockDividerContext) -> Self {
        self.step(context.input_high, context.division)
    }

    open spec fn accepts(&self, context: ClockDividerContext) -> bool {
        context.division >= 1 && self.count_ok()
    }

    fn next_state(&mut self, context: ClockDividerContext) -> (next: Self) {
        match *self {
            ClockDividerState::High => {
                if !context.input_high {
                    ClockDividerState::Low(0, false)
                } else {
                    ClockDividerState::High
                }
            },
            ClockDividerState::Low(count, prev_input_high) => {
                if context.input_high && !prev_input_high {
                    let new_count = count + 1;
                    if count >= context.division - 1 {
                        return ClockDividerState::High;
                    }
                    ClockDividerState::Low(new_count, true)
                } else {
                    ClockDividerState::Low(count, context.input_high)
                }
            },
        }
    }
}

/// Law: every step keeps the count of a low state small enough to take
/// another step.
pub proof fn lemma_step_keeps_count_ok(s: ClockDividerState, input_high: bool, division: u32)
    requires
        s.count_ok(),
        division >= 1,
    ensures
        s.step(input_high, division).count_ok(),
{
}

/// Law: with a division of 1 the divider passes its input through. Starting
/// from the initial state, the output equals the clock on every step.
pub proof fn lemma_divide_by_one_passes_through(s: ClockDividerState, input_high: bool)
    requires
        s == ClockDividerState::High || s == ClockDividerState::Low(0, false),
    ensures
        (s.step(input_high, 1) == ClockDividerState::High) == input_high,
        s.step(input_high, 1) == ClockDividerState::High || s.step(input_high, 1)
            == ClockDividerState::Low(0, false),
{
}

/// Law: from a low state with `count` edges seen, a rising edge makes the
/// output high exactly when it is the `division`-th edge.
pub proof fn lemma_rising_edge_counts(count: u32, input_high: bool, division: u32)
    requires
        division >= 1,
        count < division,
    ensures
        ClockDividerState::Low(count, false).step(true, division) == (if count + 1 == division {
            ClockDividerState::High
        } else {
            ClockDividerState::Low((count + 1) as u32, true)
        }),
{
}

/// The number of rising edges in `hs`: positions where the clock is high
/// and was low before (it counts as low before the first).
pub open spec fn rising_edges(hs: Seq<bool>) -> nat
    decreases hs.len(),
{
    if hs.len() == 0 {
        0
    } else {
        let n = hs.len() - 1;
        rising_edges(hs.drop_last()) + if hs[n] && (n == 0 || !hs[n - 1]) {
            1nat
        } else {
            0nat
        }
    }
}

/// The state after the steps for clock levels `hs`, each with `division`.
pub open spec fn divider_run(s: ClockDividerState, hs: Seq<bool>, division: u32) -> ClockDividerState
    decreases hs.len(),
{
    if hs.len() == 0 {
        s
    } else {
        divider_run(s, hs.drop_last(), division).step(hs.last(), division)
    }
}

/// Law: started from its initial state, the divider is high exactly while
/// the clock is high during every `division`-th pulse of the clock (the
/// pulses counted from 1), and low otherwise.
pub proof fn lemma_divides_pulses(hs: Seq<bool>, division: u32)
    requires
        division >= 1,
        hs.len() > 0,
    ensures
        (divider_run(ClockDividerState::Low(0, false), hs, division) == ClockDividerState::High) == (
        hs.last() && rising_edges(hs) % (division as nat) == 0),
{
    lemma_divider_state(hs, division);
}

/// The divider's state after a run: high while in a counted pulse,
/// otherwise low with the edges counted modulo the division and the last
/// clock level.
proof fn lemma_divider_state(hs: Seq<bool>, division: u32)
    requires
        division >= 1,
    ensures
        hs.len() == 0 ==> divider_run(ClockDividerState::Low(0, false), hs, division)
            == ClockDividerState::Low(0, false),
        hs.len() > 0 ==> divider_run(ClockDividerState::Low(0, false), hs, division) == (if hs.last()
            && rising_edges(hs) % (division as nat) == 0 {
            ClockDividerState::High
        } else {
            ClockDividerState::Low((rising_edges(hs) % (division as nat)) as u32, hs.last())
        }),
    decreases hs.len(),
{
    if hs.len() > 0 {
        let p = hs.drop_last();
        lemma_divider_state(p, division);
        let d = division as nat;
        let e = rising_edges(p);
        let n = hs.len() - 1;
        assert(rising_edges(hs) == e + if hs[n] && (n == 0 || !hs[n - 1]) {
            1nat
        } else {
            0nat
        });
        if n > 0 {
            assert(p.last() == hs[n - 1]);
        }
        vstd::arithmetic::div_mod::lemma_mod_bound(e as int, d as int);
        vstd::arithmetic::div_mod::lemma_add_mod_noop(e as int, 1, d as int);
        if d == 1 {
            assert((e + 1) % d == 0);
            assert(e % d == 0);
        } else {
            vstd::arithmetic::div_mod::lemma_small_mod(1, d);
            if e % d + 1 == d {
                vstd::arithmetic::div_mod::lemma_mod_self_0(d as int);
            } else {
                vstd::arithmetic::div_mod::lemma_small_mod((e % d + 1) as nat, d);
            }
        }
    }
}

/// Divides a clock by a whole number.
pub struct ClockDivider {
    state_machine: StateMachine<ClockDividerContext, ClockDividerState>,
}

impl View for ClockDivider {
    type V = ClockDividerState;

    closed spec fn view(&self) -> ClockDividerState {
        self.state_machine@
    }
}

impl ClockDivider {
    /// The divider's invariant.
    pub open spec fn inv(&self) -> bool {
        self@.count_ok()
    }

    /// A divider in its initial state, low with no edges seen. The sample
    /// rate plays no part.
    pub fn new(_sample_rate: u32) -> (r: Self)
        ensures
            r.inv(),
            r@ == ClockDividerState::Low(0, false),
    {
        ClockDivider { state_machine: StateMachine::with_state(ClockDividerState::Low(0, false)) }
    }

    /// One step. A division below 1 gives a low output and leaves the state
    /// as it was; otherwise the state steps and the output is high exactly
    /// when the new state is high.
    pub fn process(&mut self, input_high: bool, division: u32) -> (output_high: bool)
        requires
            old(self).inv(),
        ensures
            final(self).inv(),
            division < 1 ==> !output_high && final(self)@ == old(self)@,
            division >= 1 ==> final(self)@ == old(self)@.step(input_high, division),
            output_high == (division >= 1 && final(self)@ == ClockDividerState::High),
    {
        if division < 1 {
            return false;
        }
        proof {
            lemma_step_keeps_count_ok(self@, input_high, division);
        }
        let state = self.state_machine.next(ClockDividerContext { input_high, division });
        match state {
            ClockDividerState::High => true,
            ClockDividerState::Low(_, _) => false,
        }
    }
}

} // verus!
