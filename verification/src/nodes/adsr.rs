//! The phases of an attack-decay-sustain-release envelope.
//!
//! The envelope rises from silence to full level over the attack, falls to
//! the sustain level over the decay, holds it while its gate stays on, and
//! falls back to silence over the release once its gate goes off. Levels are
//! values of a type `V` that this module only passes around; the level of a
//! ramp part way through is interpolated by the caller.
use vstd::prelude::*;
use crate::dsp::ramp::Ramp;
use crate::dsp::state_machine::{State, StateMachine};

verus! {

/// An end point of a ramp: silence, full level, or a given level.
#[derive(Clone, Copy)]
pub enum Level<V> {
    Silent,
    Full,
    At(V),
}

/// The phase of the envelope, with the ramp it is on.
#[derive(Clone, Copy)]
pub enum AdsrState<V> {
    Idle,
    Attack(Ramp<Level<V>>),
    Decay(Ramp<Level<V>>),
    Sustain(V),
    Release(Ramp<Level<V>>),
}

impl<V> Default for AdsrState<V> {
    fn default() -> (r: Self)
        ensures
            r is Idle,
    {
        AdsrState::Idle
    }
}

/// What the envelope reads on one step: its gate, the phase lengths in
/// samples, the sustain level, and `level`, the envelope's present output.
pub struct AdsrContext<V> {
    pub gate_on: bool,
    pub attack_dur: usize,
    pub decay_dur: usize,
    pub sustain: V,
    pub release_dur: usize,
    pub level: V,
}

impl<V: Copy> AdsrState<V> {
    /// Every ramp held can advance another sample.
    pub open spec fn ramps_ok(self) -> bool {
        match self {
            AdsrState::Attack(r) => r.can_advance(),
            AdsrState::Decay(r) => r.can_advance(),
            AdsrState::Release(r) => r.can_advance(),
            _ => true,
        }
    }

    /// The release from the present output.
    pub open spec fn release_from(level: V, release_dur: usize) -> AdsrState<V> {
        AdsrState::Release(Ramp::fresh(Level::At(level), Level::Silent, release_dur))
    }

    /// The successor phase in context `c`.
    pub open spec fn step(self, c: AdsrContext<V>) -> AdsrState<V> {
        match self {
            AdsrState::Idle => if c.gate_on {
                AdsrState::Attack(Ramp::fresh(Level::Silent, Level::Full, c.attack_dur))
            } else {
                AdsrState::Idle
            },
            AdsrState::Attack(r) => if !c.gate_on {
                Self::release_from(c.level, c.release_dur)
            } else if r.runs_on() {
                AdsrState::Attack(r.advanced())
            } else {
                AdsrState::Decay(Ramp::fresh(Level::Full, Level::At(c.sustain), c.decay_dur))
            },
            AdsrState::Decay(r) => if !c.gate_on {
                Self::release_from(c.level, c.release_dur)
            } else if r.runs_on() {
                AdsrState::Decay(r.advanced())
            } else {
                AdsrState::Sustain(c.sustain)
            },
            AdsrState::Sustain(_) => if !c.gate_on {
                Self::release_from(c.sustain, c.release_dur)
            } else {
                AdsrState::Sustain(c.sustain)
            },
            AdsrState::Release(r) => if c.gate_on {
                // A new attack from the present output lasts the decay time.
                AdsrState::Attack(Ramp::fresh(Level::At(c.level), Level::Full, c.decay_dur))
            } else if r.runs_on() {
                AdsrState::Release(r.advanced())
            } else {
                AdsrState::Idle
            },
        }
    }

    /// The phase after the steps of `contexts`, in order.
    pub open spec fn run(self, contexts: Seq<AdsrContext<V>>) -> AdsrState<V>
        decreases contexts.len(),
    {
        if contexts.len() == 0 {
            self
        } else {
            self.step(contexts[0]).run(contexts.drop_first())
        }
    }
}

impl<V: Copy> State<AdsrContext<V>> for AdsrState<V> {
    open spec fn transition(&self, context: AdsrContext<V>) -> Self {
        self.step(context)
    }

    open spec fn accepts(&self, context: AdsrContext<V>) -> bool {
        self.ramps_ok()
    }

    fn next_state(&mut self, context: AdsrContext<V>) -> (next: Self) {
        match *self {
            AdsrState::Idle => {
                if context.gate_on {
                    let attack = Ramp::new(Level::Silent, Level::Full, context.attack_dur);
                    AdsrState::Attack(attack)
                } else {
                    *self
                }
            },
            AdsrState::Attack(ramp) => {
                let mut ramp = ramp;
                if !context.gate_on {
                    let release = Ramp::new(Level::At(context.level), Level::Silent, context.release_dur);
                    return AdsrState::Release(release);
                }
                if ramp.tick() {
                    AdsrState::Attack(ramp)
                } else {
                    let decay = Ramp::new(Level::Full, Level::At(context.sustain), context.decay_dur);
                    AdsrState::Decay(decay)
                }
            },
            AdsrState::Decay(ramp) => {
                let mut ramp = ramp;
                if !context.gate_on {
                    let release = Ramp::new(Level::At(context.level), Level::Silent, context.release_dur);
                    return AdsrState::Release(release);
                }
                if ramp.tick() {
                    AdsrState::Decay(ramp)
                } else {
                    AdsrState::Sustain(context.sustain)
                }
            },
            AdsrState::Sustain(_) => {
                if !context.gate_on {
                    let release = Ramp::new(Level::At(context.sustain), Level::Silent, context.release_dur);
                    return AdsrState::Release(release);
                }
                AdsrState::Sustain(context.sustain)
            },
            AdsrState::Release(ramp) => {
                let mut ramp = ramp;
                if context.gate_on {
                    let attack = Ramp::new(Level::At(context.level), Level::Full, context.decay_dur);
                    return AdsrState::Attack(attack);
                }
                if ramp.tick() {
                    AdsrState::Release(ramp)
                } else {
                    AdsrState::Idle
                }
            },
        }
    }
}

/// Law: every step leaves each ramp able to advance again, so the envelope
/// can run for ever.
pub proof fn lemma_step_keeps_ramps_ok<V: Copy>(s: AdsrState<V>, c: AdsrContext<V>)
    requires
        s.ramps_ok(),
    ensures
        s.step(c).ramps_ok(),
{
}

/// Law: a gate going off always starts a release from the present output
/// (from the sustain level out of the sustain phase), unless the envelope is
/// idle or already releasing.
pub proof fn lemma_gate_off_releases<V: Copy>(s: AdsrState<V>, c: AdsrContext<V>)
    requires
        !c.gate_on,
        !(s is Idle),
        !(s is Release),
    ensures
        s.step(c) == AdsrState::<V>::release_from(
            if s is Sustain { c.sustain } else { c.level },
            c.release_dur,
        ),
{
}

/// Law: while gate stays on, the sustain phase holds the sustain level.
pub proof fn lemma_sustain_holds<V: Copy>(x: V, c: AdsrContext<V>)
    requires
        c.gate_on,
    ensures
        AdsrState::Sustain(x).step(c) == AdsrState::<V>::Sustain(c.sustain),
{
}

/// Law: a gate that comes back on during the release retriggers at once: for
/// every release ramp, the next phase is an attack that starts from the
/// present output, rises to full level, lasts the decay time and has run no
/// sample yet.
pub proof fn lemma_gate_on_reattacks_from_release<V: Copy>(r: Ramp<Level<V>>, c: AdsrContext<V>)
    requires
        c.gate_on,
    ensures
        AdsrState::Release(r).step(c) == AdsrState::<V>::Attack(
            Ramp { start: Level::At(c.level), target: Level::Full, duration: c.decay_dur, running_sample: 0 },
        ),
{
}

/// Every context has a gate that is off.
pub open spec fn gate_off_throughout<V>(contexts: Seq<AdsrContext<V>>) -> bool {
    forall|i: int| 0 <= i < contexts.len() ==> !(#[trigger] contexts[i]).gate_on
}

/// Law: with gate off throughout, a release that has `k` samples left to run falls
/// silent after exactly those `k` steps.
pub proof fn lemma_release_ends_idle<V: Copy>(r: Ramp<Level<V>>, contexts: Seq<AdsrContext<V>>)
    requires
        r.running_sample < r.duration,
        contexts.len() == r.duration - r.running_sample,
        gate_off_throughout(contexts),
    ensures
        AdsrState::Release(r).run(contexts) is Idle,
    decreases contexts.len(),
{
    let next = AdsrState::Release(r).step(contexts[0]);
    assert(!contexts[0].gate_on);
    assert(AdsrState::Release(r).run(contexts) == next.run(contexts.drop_first()));
    let rest = contexts.drop_first();
    if r.runs_on() {
        assert(gate_off_throughout(rest)) by {
            assert forall|i: int| 0 <= i < rest.len() implies !(#[trigger] rest[i]).gate_on by {
                assert(rest[i] == contexts[i + 1]);
            }
        }
        lemma_release_ends_idle(r.advanced(), rest);
    } else {
        assert(rest.len() == 0);
        assert(next is Idle);
    }
}

/// Every context has a gate that is on.
pub open spec fn gate_on_throughout<V>(contexts: Seq<AdsrContext<V>>) -> bool {
    forall|i: int| 0 <= i < contexts.len() ==> (#[trigger] contexts[i]).gate_on
}

/// Law: with gate on throughout, an attack that has `k` samples left to run turns
/// into the decay, from full level to the sustain level, after exactly
/// those `k` steps.
pub proof fn lemma_attack_reaches_decay<V: Copy>(r: Ramp<Level<V>>, contexts: Seq<AdsrContext<V>>)
    requires
        r.running_sample < r.duration,
        contexts.len() == r.duration - r.running_sample,
        gate_on_throughout(contexts),
    ensures
        AdsrState::Attack(r).run(contexts) == AdsrState::Decay(
            Ramp::fresh(Level::Full, Level::At(contexts.last().sustain), contexts.last().decay_dur),
        ),
    decreases contexts.len(),
{
    let next = AdsrState::Attack(r).step(contexts[0]);
    assert(contexts[0].gate_on);
    assert(AdsrState::Attack(r).run(contexts) == next.run(contexts.drop_first()));
    let rest = contexts.drop_first();
    if r.runs_on() {
        assert forall|i: int| 0 <= i < rest.len() implies (#[trigger] rest[i]).gate_on by {
            assert(rest[i] == contexts[i + 1]);
        }
        assert(rest.last() == contexts.last());
        lemma_attack_reaches_decay(r.advanced(), rest);
    } else {
        assert(rest.len() == 0);
        assert(contexts.last() == contexts[0]);
    }
}

/// Law: a gate coming on wakes an idle envelope into an attack from silence
/// to full level over the attack time, with no sample run yet.
pub proof fn lemma_gate_on_attacks_from_idle<V: Copy>(c: AdsrContext<V>)
    requires
        c.gate_on,
    ensures
        AdsrState::<V>::Idle.step(c) == AdsrState::<V>::Attack(
            Ramp { start: Level::Silent, target: Level::Full, duration: c.attack_dur, running_sample: 0 },
        ),
{
}

/// Law: with gate on throughout, a decay that has `k` samples left to run
/// settles on the sustain level after exactly those `k` steps.
pub proof fn lemma_decay_reaches_sustain<V: Copy>(r: Ramp<Level<V>>, contexts: Seq<AdsrContext<V>>)
    requires
        r.running_sample < r.duration,
        contexts.len() == r.duration - r.running_sample,
        gate_on_throughout(contexts),
    ensures
        AdsrState::Decay(r).run(contexts) == AdsrState::<V>::Sustain(contexts.last().sustain),
    decreases contexts.len(),
{
    let next = AdsrState::Decay(r).step(contexts[0]);
    assert(contexts[0].gate_on);
    assert(AdsrState::Decay(r).run(contexts) == next.run(contexts.drop_first()));
    let rest = contexts.drop_first();
    if r.running_sample + 1 < r.duration {
        assert forall|i: int| 0 <= i < rest.len() implies (#[trigger] rest[i]).gate_on by {
            assert(rest[i] == contexts[i + 1]);
        }
        assert(rest.last() == contexts.last());
        lemma_decay_reaches_sustain(r.advanced(), rest);
    } else {
        assert(rest.len() == 0);
        assert(contexts.last() == contexts[0]);
    }
}

/// Law: with gate off throughout, an idle envelope stays idle.
pub proof fn lemma_idle_stays_idle<V: Copy>(contexts: Seq<AdsrContext<V>>)
    requires
        gate_off_throughout(contexts),
    ensures
        AdsrState::<V>::Idle.run(contexts) is Idle,
    decreases contexts.len(),
{
    if contexts.len() > 0 {
        let rest = contexts.drop_first();
        assert(!contexts[0].gate_on);
        assert forall|i: int| 0 <= i < rest.len() implies !(#[trigger] rest[i]).gate_on by {
            assert(rest[i] == contexts[i + 1]);
        }
        lemma_idle_stays_idle(rest);
    }
}

/// An envelope generator stepping one sample at a time.
pub struct Adsr<V: Copy> {
    sample_rate: u32,
    state_machine: StateMachine<AdsrContext<V>, AdsrState<V>>,
}

impl<V: Copy> Adsr<V> {
    /// The phase always holds ramps that can advance.
    #[verifier::type_invariant]
    closed spec fn ramps_can_advance(self) -> bool {
        self.state_machine@.ramps_ok()
    }

    pub closed spec fn rate(&self) -> u32 {
        self.sample_rate
    }

    pub closed spec fn phase(&self) -> AdsrState<V> {
        self.state_machine@
    }

    /// An idle envelope at `sample_rate`.
    pub fn new(sample_rate: u32) -> (r: Self)
        ensures
            r.rate() == sample_rate,
            r.phase() is Idle,
    {
        Adsr { sample_rate, state_machine: StateMachine::with_state(AdsrState::Idle) }
    }

    /// The sample rate.
    pub fn sample_rate(&self) -> (r: u32)
        ensures
            r == self.rate(),
    {
        self.sample_rate
    }

    /// The present phase.
    pub fn state(&self) -> (r: &AdsrState<V>)
        ensures
            *r == self.phase(),
            r.ramps_ok(),
    {
        proof {
            use_type_invariant(self);
        }
        self.state_machine.current()
    }

    /// One sample: the envelope takes the step for `context` and returns its
    /// new phase.
    pub fn process_sample(&mut self, context: AdsrContext<V>) -> (r: AdsrState<V>)
        ensures
            r == old(self).phase().step(context),
            final(self).phase() == r,
            final(self).phase().ramps_ok(),
            final(self).rate() == old(self).rate(),
    {
        proof {
            use_type_invariant(&*self);
            lemma_step_keeps_ramps_ok(self.phase(), context);
        }
        let mut machine = StateMachine::with_state(*self.state_machine.current());
        let next = *machine.next(context);
        self.state_machine = machine;
        next
    }
}

} // verus!
