//! A state machine driven one step at a time by a context value.
use vstd::prelude::*;
use core::marker::PhantomData;

verus! {

/// A state that knows its successor for a given context.
pub trait State<C>: Sized {
    /// The successor of this state in `context`.
    spec fn transition(&self, context: C) -> Self;

    /// The contexts in which a step from this state is defined.
    spec fn accepts(&self, context: C) -> bool;

    /// Computes the successor of this state in `context`.
    fn next_state(&mut self, context: C) -> (next: Self)
        requires
            old(self).accepts(context),
        ensures
            next == old(self).transition(context),
    ;
}

/// A machine holding its current state.
pub struct StateMachine<C, S: State<C> + Default> {
    current_state: S,
    phantom: PhantomData<C>,
}

impl<C, S: State<C> + Default> View for StateMachine<C, S> {
    type V = S;

    closed spec fn view(&self) -> S {
        self.current_state
    }
}

impl<C, S: State<C> + Default> Default for StateMachine<C, S> {
    fn default() -> (r: Self)
        ensures
            call_ensures(S::default, (), r@),
    {
        StateMachine { current_state: S::default(), phantom: PhantomData }
    }
}

impl<C, S: State<C> + Default> StateMachine<C, S> {
    /// A machine in state `state`.
    pub fn with_state(state: S) -> (r: Self)
        ensures
            r@ == state,
    {
        StateMachine { current_state: state, phantom: PhantomData }
    }

    /// Moves to the successor of the current state in `context` and returns
    /// the new state.
    pub fn next(&mut self, context: C) -> (r: &S)
        requires
            old(self)@.accepts(context),
        ensures
            *r == old(self)@.transition(context),
            final(self)@ == old(self)@.transition(context),
    {
        self.current_state = self.current_state.next_state(context);
        &self.current_state
    }

    /// The current state.
    pub fn current(&self) -> (r: &S)
        ensures
            *r == self@,
    {
        &self.current_state
    }
}

} // verus!
