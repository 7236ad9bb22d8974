//! A fixed-capacity circular buffer whose read position can be moved, as a
//! delay line needs.
//!
//! One slot is always kept free: a buffer of capacity `n` holds at most
//! `n - 1` items. Slots keep the last value written into them, so moving the
//! read position backwards makes old values readable again.
use vstd::prelude::*;
use vstd::arithmetic::div_mod::{
    lemma_fundamental_div_mod_converse_mod,
    lemma_mod_multiples_vanish,
    lemma_mod_pos_bound,
};

verus! {

/// The abstract state of a ring buffer: every slot, and the two positions.
pub struct RingState<T> {
    pub slots: Seq<Option<T>>,
    pub read: nat,
    pub write: nat,
}

/// `x % m` for `0 <= x < 2 * m`.
pub open spec fn wrap(x: int, m: int) -> int {
    if x < m {
        x
    } else {
        x - m
    }
}

pub proof fn lemma_wrap(x: int, m: int)
    requires
        0 < m,
        0 <= x < 2 * m,
    ensures
        x % m == wrap(x, m),
{
    if x < m {
        lemma_fundamental_div_mod_converse_mod(x, m, 0, x);
    } else {
        lemma_fundamental_div_mod_converse_mod(x, m, 1, x - m);
    }
}

impl<T> RingState<T> {
    pub open spec fn capacity(self) -> nat {
        self.slots.len()
    }

    /// Positions lie inside the buffer, and its length fits an `isize`.
    pub open spec fn wf(self) -> bool {
        &&& self.capacity() <= isize::MAX
        &&& self.capacity() > 0 ==> self.read < self.capacity() && self.write < self.capacity()
        &&& self.capacity() == 0 ==> self.read == 0 && self.write == 0
    }

    /// The number of slots between the read and the write position.
    pub open spec fn len(self) -> nat {
        if self.capacity() == 0 {
            0
        } else {
            wrap((self.write + self.capacity() - self.read) as int, self.capacity() as int) as nat
        }
    }

    /// Pushing would make the write position reach the read position.
    pub open spec fn is_full(self) -> bool {
        self.capacity() > 0 && wrap((self.write + 1) as int, self.capacity() as int) == self.read
    }

    /// The slot at `i` places after the read position.
    pub open spec fn slot_after_read(self, i: int) -> Option<T> {
        self.slots[wrap((self.read + i) as int, self.capacity() as int)]
    }

    /// The slots from the read position up to the write position, in order.
    pub open spec fn contents(self) -> Seq<Option<T>> {
        Seq::new(self.len(), |i: int| self.slot_after_read(i))
    }

    /// The state after `value` is written at the write position.
    pub open spec fn after_push(self, value: T) -> RingState<T> {
        RingState {
            slots: self.slots.update(self.write as int, Some(value)),
            read: self.read,
            write: wrap((self.write + 1) as int, self.capacity() as int) as nat,
        }
    }

    /// The state after the read position advances by one slot.
    pub open spec fn after_pop(self) -> RingState<T> {
        RingState {
            slots: self.slots,
            read: wrap((self.read + 1) as int, self.capacity() as int) as nat,
            write: self.write,
        }
    }

    /// The state with the read position moved by `offset` slots, around the
    /// buffer in either direction.
    pub open spec fn after_move_read(self, offset: int) -> RingState<T> {
        RingState {
            slots: self.slots,
            read: ((self.read + offset) % (self.capacity() as int)) as nat,
            write: self.write,
        }
    }

    /// Nothing can be read: the positions coincide or the next slot was
    /// never written.
    pub open spec fn pop_yields_nothing(self) -> bool {
        self.read == self.write || self.slots[self.read as int] is None
    }
}

/// Law: a push appends to the readable contents, and a pop removes their
/// first element. Together they make the buffer first-in first-out: a read
/// gives back what was written, in the order it was written.
pub proof fn lemma_push_appends<T>(s: RingState<T>, value: T)
    requires
        s.wf(),
        s.capacity() > 0,
        !s.is_full(),
    ensures
        s.after_push(value).wf(),
        s.after_push(value).len() == s.len() + 1,
        s.after_push(value).contents() == s.contents().push(Some(value)),
{
    let c = s.capacity() as int;
    let t = s.after_push(value);
    lemma_wrap((s.write + 1) as int, c);
    lemma_wrap((s.write + c - s.read) as int, c);
    lemma_wrap((t.write + c - t.read) as int, c);
    assert(t.len() == s.len() + 1);
    assert forall|i: int| 0 <= i < t.len() implies #[trigger] t.contents()[i] == s.contents().push(
        Some(value),
    )[i] by {
        lemma_wrap((s.read + i) as int, c);
        if i == s.len() {
            assert(wrap((s.read + i) as int, c) == s.write);
        } else {
            assert(wrap((s.read + i) as int, c) != s.write);
        }
    }
    assert(t.contents() =~= s.contents().push(Some(value)));
}

/// Law: popping reads the first element of the contents and leaves the rest.
pub proof fn lemma_pop_takes_first<T>(s: RingState<T>)
    requires
        s.wf(),
        s.len() > 0,
    ensures
        s.after_pop().wf(),
        s.after_pop().len() == s.len() - 1,
        s.contents()[0] == s.slots[s.read as int],
        s.after_pop().contents() == s.contents().drop_first(),
{
    let c = s.capacity() as int;
    let t = s.after_pop();
    lemma_wrap((s.read + 1) as int, c);
    lemma_wrap((s.write + c - s.read) as int, c);
    lemma_wrap((t.write + c - t.read) as int, c);
    lemma_wrap((s.read + 0) as int, c);
    assert(t.len() == s.len() - 1);
    assert forall|i: int| 0 <= i < t.len() implies #[trigger] t.contents()[i]
        == s.contents().drop_first()[i] by {
        lemma_wrap((t.read + i) as int, c);
        lemma_wrap((s.read + (i + 1)) as int, c);
    }
    assert(t.contents() =~= s.contents().drop_first());
}

/// Law: the contents are empty exactly when the positions coincide, and the
/// buffer is full exactly when one slot short of its capacity.
pub proof fn lemma_len_bounds<T>(s: RingState<T>)
    requires
        s.wf(),
    ensures
        s.capacity() > 0 ==> s.len() < s.capacity(),
        s.len() == 0 <==> s.read == s.write,
        s.is_full() <==> (s.capacity() > 0 && s.len() + 1 == s.capacity()),
{
    if s.capacity() > 0 {
        let c = s.capacity() as int;
        lemma_wrap((s.write + c - s.read) as int, c);
        lemma_wrap((s.write + 1) as int, c);
    }
}

/// The state after `xs` are pushed one after the other.
pub open spec fn pushed_all<T>(s: RingState<T>, xs: Seq<T>) -> RingState<T>
    decreases xs.len(),
{
    if xs.len() == 0 {
        s
    } else {
        pushed_all(s, xs.drop_last()).after_push(xs.last())
    }
}

/// The empty buffer that `RingBuffer::new(n)` makes.
pub open spec fn fresh_state<T>(n: nat) -> RingState<T> {
    RingState { slots: Seq::new(n, |i: int| None::<T>), read: 0, write: 0 }
}

/// `xs` as written slots.
pub open spec fn as_slots<T>(xs: Seq<T>) -> Seq<Option<T>> {
    xs.map_values(|x: T| Some(x))
}

/// Law: pushes that stay below capacity all succeed, and the contents grow
/// by exactly the values pushed, in order.
pub proof fn lemma_pushes_fill_in_order<T>(s: RingState<T>, xs: Seq<T>)
    requires
        s.wf(),
        s.capacity() > 0,
        s.len() + xs.len() < s.capacity(),
    ensures
        pushed_all(s, xs).wf(),
        pushed_all(s, xs).capacity() == s.capacity(),
        pushed_all(s, xs).len() == s.len() + xs.len(),
        pushed_all(s, xs).contents() == s.contents() + as_slots(xs),
        forall|k: int| 0 <= k < xs.len() ==> !(#[trigger] pushed_all(s, xs.take(k))).is_full(),
    decreases xs.len(),
{
    if xs.len() == 0 {
        assert(s.contents() + as_slots(xs) =~= s.contents());
    } else {
        let ys = xs.drop_last();
        lemma_pushes_fill_in_order(s, ys);
        let p = pushed_all(s, ys);
        lemma_len_bounds(p);
        lemma_push_appends(p, xs.last());
        assert(as_slots(ys).push(Some(xs.last())) =~= as_slots(xs));
        assert(s.contents() + as_slots(xs) =~= (s.contents() + as_slots(ys)).push(Some(xs.last())));
        assert forall|k: int| 0 <= k < xs.len() implies !(#[trigger] pushed_all(s, xs.take(k))).is_full() by {
            if k < ys.len() {
                assert(xs.take(k) =~= ys.take(k));
            } else {
                assert(xs.take(k) =~= ys);
            }
        }
    }
}

/// Law: a drain stops only when nothing is left. When every slot between
/// the positions has been written, a drain (with the outcome that
/// `RingBuffer::drain` promises) gives back the whole contents, in order,
/// and leaves the buffer empty.
pub proof fn lemma_drain_takes_everything<T>(s: RingState<T>, events: Seq<T>, after: RingState<T>)
    requires
        s.wf(),
        forall|i: int| 0 <= i < s.contents().len() ==> (#[trigger] s.contents()[i]) is Some,
        after.wf(),
        after.slots == s.slots,
        events.len() <= s.len(),
        forall|i: int| 0 <= i < events.len() ==> s.contents()[i] == Some(#[trigger] events[i]),
        after.contents() == s.contents().skip(events.len() as int),
        after.pop_yields_nothing(),
    ensures
        events.len() == s.len(),
        s.contents() == as_slots(events),
        after.len() == 0,
{
    assert(s.contents().len() == s.len());
    assert(after.contents().len() == after.len());
    assert(after.len() == s.len() - events.len());
    if events.len() < s.len() {
        lemma_len_bounds(after);
        assert(after.contents()[0] == s.contents()[events.len() as int]);
        assert(after.len() > 0);
        if after.capacity() > 0 {
            lemma_wrap((after.read + 0) as int, after.capacity() as int);
        }
        assert(false);
    }
    assert(s.contents() =~= as_slots(events));
}

/// Law: pushing `xs` into a new buffer of capacity `n`, with fewer than `n`
/// values, and then draining it gives back exactly `xs`, in order, and
/// leaves it empty.
pub proof fn lemma_drain_after_pushes<T>(n: nat, xs: Seq<T>, events: Seq<T>, after: RingState<T>)
    requires
        0 < n <= isize::MAX,
        xs.len() < n,
        after.wf(),
        after.slots == pushed_all(fresh_state::<T>(n), xs).slots,
        events.len() <= pushed_all(fresh_state::<T>(n), xs).len(),
        forall|i: int|
            0 <= i < events.len() ==> pushed_all(fresh_state::<T>(n), xs).contents()[i] == Some(
                #[trigger] events[i],
            ),
        after.contents() == pushed_all(fresh_state::<T>(n), xs).contents().skip(events.len() as int),
        after.pop_yields_nothing(),
    ensures
        forall|k: int| 0 <= k < xs.len() ==> !(#[trigger] pushed_all(fresh_state::<T>(n), xs.take(k))).is_full(),
        events == xs,
        after.len() == 0,
{
    let s0 = fresh_state::<T>(n);
    lemma_len_bounds(s0);
    assert(s0.contents() =~= Seq::<Option<T>>::empty());
    lemma_pushes_fill_in_order(s0, xs);
    let t = pushed_all(s0, xs);
    assert(t.contents() =~= as_slots(xs));
    lemma_drain_takes_everything(t, events, after);
    assert(events.len() == xs.len());
    assert forall|i: int| 0 <= i < xs.len() implies events[i] == xs[i] by {
        assert(as_slots(events)[i] == as_slots(xs)[i]);
    }
    assert(events =~= xs);
}

/// A circular buffer of `Copy` values.
pub struct RingBuffer<T: Copy> {
    buffer: Vec<Option<T>>,
    read_index: usize,
    write_index: usize,
}

impl<T: Copy> View for RingBuffer<T> {
    type V = RingState<T>;

    closed spec fn view(&self) -> RingState<T> {
        RingState { slots: self.buffer@, read: self.read_index as nat, write: self.write_index as nat }
    }
}

impl<T: Copy> RingBuffer<T> {
    /// A buffer of `size` empty slots, both positions at zero.
    pub fn new(size: usize) -> (r: Self)
        requires
            size <= isize::MAX,
        ensures
            r@.wf(),
            r@.slots == Seq::new(size as nat, |i: int| None::<T>),
            r@.read == 0,
            r@.write == 0,
    {
        let mut buffer: Vec<Option<T>> = Vec::new();
        let mut i: usize = 0;
        while i < size
            invariant
                i <= size,
                buffer@ == Seq::new(i as nat, |j: int| None::<T>),
            decreases size - i,
        {
            buffer.push(None);
            i = i + 1;
            assert(buffer@ =~= Seq::new(i as nat, |j: int| None::<T>));
        }
        RingBuffer { buffer, read_index: 0, write_index: 0 }
    }

    /// The number of slots.
    pub fn capacity(&self) -> (n: usize)
        ensures
            n == self@.capacity(),
    {
        self.buffer.len()
    }

    /// Writes `value` at the write position, unless the buffer is full.
    pub fn push(&mut self, value: T) -> (r: Result<(), ()>)
        requires
            old(self)@.wf(),
            old(self)@.capacity() > 0,
        ensures
            final(self)@.wf(),
            old(self)@.is_full() ==> r is Err && final(self)@ == old(self)@,
            !old(self)@.is_full() ==> r is Ok && final(self)@ == old(self)@.after_push(value),
            r is Ok ==> final(self)@.contents() == old(self)@.contents().push(Some(value)),
    {
        let cap = self.buffer.len();
        let write_index = self.write_index;
        proof {
            lemma_wrap((write_index + 1) as int, cap as int);
        }
        let next_write_index = if write_index + 1 == cap {
            0
        } else {
            write_index + 1
        };
        if next_write_index == self.read_index {
            return Err(());
        }
        self.buffer.set(write_index, Some(value));
        self.write_index = next_write_index;
        proof {
            lemma_push_appends(old(self)@, value);
            assert(self@ =~= old(self)@.after_push(value));
        }
        Ok(())
    }

    /// Reads the value at the read position and advances past it; nothing is
    /// read when the positions coincide or that slot was never written.
    pub fn pop(&mut self) -> (r: Option<T>)
        requires
            old(self)@.wf(),
        ensures
            final(self)@.wf(),
            old(self)@.pop_yields_nothing() ==> r is None && final(self)@ == old(self)@,
            !old(self)@.pop_yields_nothing() ==> r == old(self)@.slots[old(self)@.read as int]
                && final(self)@ == old(self)@.after_pop(),
            r is Some ==> old(self)@.contents().len() > 0 && old(self)@.contents()[0] == r
                && final(self)@.contents() == old(self)@.contents().drop_first(),
    {
        let read_index = self.read_index;
        if read_index == self.write_index {
            return None;
        }
        let cap = self.buffer.len();
        match self.buffer[read_index] {
            Some(event) => {
                proof {
                    lemma_wrap((read_index + 1) as int, cap as int);
                    lemma_len_bounds(old(self)@);
                    lemma_pop_takes_first(old(self)@);
                }
                self.read_index = if read_index + 1 == cap {
                    0
                } else {
                    read_index + 1
                };
                proof {
                    assert(self@ =~= old(self)@.after_pop());
                }
                Some(event)
            },
            None => None,
        }
    }

    /// Pushes `val` until the buffer is full.
    pub fn flooded(self, val: T) -> (r: Self)
        requires
            self@.wf(),
            self@.capacity() > 0,
        ensures
            r@.wf(),
            r@.is_full(),
            r@.read == self@.read,
            r@.contents() == self@.contents() + Seq::new(
                (self@.capacity() - 1 - self@.len()) as nat,
                |i: int| Some(val),
            ),
    {
        let mut buf = self;
        proof {
            lemma_len_bounds(self@);
        }
        loop
            invariant
                buf@.wf(),
                buf@.capacity() == self@.capacity(),
                buf@.read == self@.read,
                self@.len() <= buf@.len() < self@.capacity(),
                buf@.contents() == self@.contents() + Seq::new(
                    (buf@.len() - self@.len()) as nat,
                    |i: int| Some(val),
                ),
            ensures
                buf@.is_full(),
                buf@.contents() == self@.contents() + Seq::new(
                    (buf@.len() - self@.len()) as nat,
                    |i: int| Some(val),
                ),
                buf@.wf(),
                buf@.read == self@.read,
            decreases self@.capacity() - buf@.len(),
        {
            let ghost before = buf@;
            if buf.push(val).is_err() {
                break ;
            }
            proof {
                lemma_len_bounds(before);
                lemma_push_appends(before, val);
                lemma_len_bounds(buf@);
                assert(buf@.contents() =~= self@.contents() + Seq::new(
                    (buf@.len() - self@.len()) as nat,
                    |i: int| Some(val),
                ));
            }
        }
        proof {
            lemma_len_bounds(buf@);
            assert(buf@.len() - self@.len() == self@.capacity() - 1 - self@.len());
        }
        buf
    }

    /// Pops until nothing more can be read, and returns what was read, in
    /// order.
    pub fn drain(&mut self) -> (events: Vec<T>)
        requires
            old(self)@.wf(),
        ensures
            final(self)@.wf(),
            final(self)@.slots == old(self)@.slots,
            final(self)@.write == old(self)@.write,
            events.len() <= old(self)@.len(),
            forall|i: int| 0 <= i < events.len() ==> old(self)@.contents()[i] == Some(
                #[trigger] events[i],
            ),
            final(self)@.contents() == old(self)@.contents().skip(events.len() as int),
            final(self)@.pop_yields_nothing(),
    {
        let mut events: Vec<T> = Vec::new();
        loop
            invariant
                self@.wf(),
                self@.slots == old(self)@.slots,
                self@.write == old(self)@.write,
                events.len() + self@.len() == old(self)@.len(),
                forall|i: int| 0 <= i < events.len() ==> old(self)@.contents()[i] == Some(
                    #[trigger] events[i],
                ),
                self@.contents() == old(self)@.contents().skip(events.len() as int),
            ensures
                self@.wf(),
                self@.slots == old(self)@.slots,
                self@.write == old(self)@.write,
                events.len() <= old(self)@.len(),
                forall|i: int| 0 <= i < events.len() ==> old(self)@.contents()[i] == Some(
                    #[trigger] events[i],
                ),
                self@.contents() == old(self)@.contents().skip(events.len() as int),
                self@.pop_yields_nothing(),
            decreases self@.len(),
        {
            let ghost before = self@;
            let ghost n = events.len();
            match self.pop() {
                Some(event) => {
                    proof {
                        lemma_len_bounds(before);
                        lemma_pop_takes_first(before);
                    }
                    events.push(event);
                    proof {
                        assert(old(self)@.contents()[n as int] == before.contents()[0]);
                        assert(self@.contents() =~= old(self)@.contents().skip(events.len() as int));
                    }
                },
                None => {
                    break ;
                },
            }
        }
        events
    }

    /// Moves the read position by `offset` slots, wrapping around the buffer.
    pub fn move_read_index(&mut self, offset: isize)
        requires
            old(self)@.wf(),
            old(self)@.capacity() > 0,
            isize::MIN <= old(self)@.read + offset <= isize::MAX,
        ensures
            final(self)@.wf(),
            final(self)@ == old(self)@.after_move_read(offset as int),
    {
        let cap = self.buffer.len();
        let current = self.read_index;
        let shift: usize = if offset >= 0 {
            (offset as usize) % cap
        } else {
            let back: u128 = (-(offset as i128)) as u128;
            let k: usize = (back % (cap as u128)) as usize;
            if k == 0 {
                0
            } else {
                cap - k
            }
        };
        proof {
            let c = cap as int;
            let o = offset as int;
            if offset >= 0 {
                let q = o / c;
                vstd::arithmetic::div_mod::lemma_fundamental_div_mod(o, c);
                assert(current + o == c * q + (current + shift));
                lemma_mod_multiples_vanish(q, current + shift, c);
            } else {
                let b = -o;
                let q = b / c;
                let k = b % c;
                vstd::arithmetic::div_mod::lemma_fundamental_div_mod(b, c);
                lemma_mod_pos_bound(b, c);
                assert(b == c * q + k);
                if k == 0 {
                    assert(current + o == c * (-q) + current) by (nonlinear_arith)
                        requires
                            b == c * q + k,
                            k == 0,
                            b == -o,
                    ;
                    lemma_mod_multiples_vanish(-q, current as int, c);
                } else {
                    assert(current + o == c * (-q - 1) + (current + c - k)) by (nonlinear_arith)
                        requires
                            b == c * q + k,
                            b == -o,
                    ;
                    lemma_mod_multiples_vanish(-q - 1, current + c - k, c);
                }
            }
            lemma_mod_pos_bound(current + shift, c);
        }
        self.read_index = (current + shift) % cap;
        proof {
            assert(self@ =~= old(self)@.after_move_read(offset as int));
        }
    }
}

} // verus!
