//! A circular queue whose capacity is fixed by a const parameter.
//!
//! It keeps one slot free: a queue of capacity `N` holds at most `N - 1`
//! items.
use vstd::prelude::*;
use crate::dsp::ring_buffer::{RingState, lemma_wrap, lemma_push_appends, lemma_pop_takes_first, lemma_len_bounds};

verus! {

/// A circular queue of `Copy` values with `N` slots.
pub struct RingBuffer<T: Copy, const N: usize> {
    events: Vec<Option<T>>,
    read_index: usize,
    write_index: usize,
}

impl<T: Copy, const N: usize> View for RingBuffer<T, N> {
    type V = RingState<T>;

    closed spec fn view(&self) -> RingState<T> {
        RingState { slots: self.events@, read: self.read_index as nat, write: self.write_index as nat }
    }
}

impl<T: Copy, const N: usize> RingBuffer<T, N> {
    /// The buffer's invariant: its state is well formed and it has `N` slots.
    pub open spec fn inv(&self) -> bool {
        self@.wf() && self@.capacity() == N
    }

    /// An empty queue of `N` unwritten slots.
    pub fn new() -> (r: Self)
        requires
            N <= isize::MAX,
        ensures
            r.inv(),
            r@.slots == Seq::new(N as nat, |i: int| None::<T>),
            r@.read == 0,
            r@.write == 0,
            r@.contents().len() == 0,
    {
        let mut events: Vec<Option<T>> = Vec::new();
        let mut i: usize = 0;
        while i < N
            invariant
                i <= N,
                events@ == Seq::new(i as nat, |j: int| None::<T>),
            decreases N - i,
        {
            events.push(None);
            i = i + 1;
            assert(events@ =~= Seq::new(i as nat, |j: int| None::<T>));
        }
        let r = RingBuffer { events, read_index: 0, write_index: 0 };
        proof {
            lemma_len_bounds(r@);
        }
        r
    }

    /// Appends `event` unless the queue is full; tells whether it did.
    pub fn push(&mut self, event: T) -> (pushed: bool)
        requires
            old(self).inv(),
            N > 0,
        ensures
            final(self).inv(),
            pushed == !old(self)@.is_full(),
            !pushed ==> final(self)@ == old(self)@,
            pushed ==> final(self)@ == old(self)@.after_push(event),
            pushed ==> final(self)@.contents() == old(self)@.contents().push(Some(event)),
    {
        let write_index = self.write_index;
        proof {
            lemma_wrap((write_index + 1) as int, N as int);
        }
        let next_write_index = if write_index + 1 == N {
            0
        } else {
            write_index + 1
        };
        if next_write_index == self.read_index {
            return false;
        }
        self.events.set(write_index, Some(event));
        self.write_index = next_write_index;
        proof {
            lemma_push_appends(old(self)@, event);
            assert(self@ =~= old(self)@.after_push(event));
        }
        true
    }

    /// Removes and returns the oldest item, if there is one that was written.
    pub fn pop(&mut self) -> (r: Option<T>)
        requires
            old(self).inv(),
        ensures
            final(self).inv(),
            old(self)@.pop_yields_nothing() ==> r is None && final(self)@ == old(self)@,
            !old(self)@.pop_yields_nothing() ==> r == old(self)@.slots[old(self)@.read as int]
                && final(self)@ == old(self)@.after_pop(),
            r is Some ==> old(self)@.contents().len() > 0 && old(self)@.contents()[0] == r
                && final(self)@.contents() == old(self)@.contents().drop_first(),
    {
        let read_index = self.read_index;
        if read_index == self.write_index {
            return None;
        }
        match self.events[read_index] {
            Some(event) => {
                proof {
                    lemma_wrap((read_index + 1) as int, N as int);
                    lemma_len_bounds(old(self)@);
                    lemma_pop_takes_first(old(self)@);
                }
                self.read_index = if read_index + 1 == N {
                    0
                } else {
                    read_index + 1
                };
                proof {
                    assert(self@ =~= old(self)@.after_pop());
                }
                Some(event)
            },
            None => None,
        }
    }
}

} // verus!
