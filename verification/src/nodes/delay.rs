//! A delay line over a ring buffer holding five seconds of samples.
use vstd::prelude::*;
use crate::dsp::ring_buffer::{RingBuffer, RingState, wrap, lemma_wrap, lemma_len_bounds};

verus! {

/// The longest delay, in seconds, that the buffer holds.
pub const MAX_SECONDS: usize = 5;

/// The buffer capacity for a sample rate.
pub open spec fn delay_capacity(sample_rate: u32) -> nat {
    sample_rate as nat * MAX_SECONDS as nat
}

/// The read position that a delay of `d` samples puts behind write position
/// `w` in a buffer of capacity `c`.
pub open spec fn read_behind(w: nat, d: nat, c: nat) -> nat {
    ((w as int - d as int) % (c as int)) as nat
}

/// The delay, in samples, of `delay_ms` milliseconds at `sample_rate`,
/// rounded down.
pub open spec fn samples_for(delay_ms: nat, sample_rate: nat) -> nat {
    delay_ms * sample_rate / 1000
}

/// A delay line for samples of type `T`.
pub struct Delay<T: Copy> {
    sample_rate: u32,
    ringbuf: RingBuffer<T>,
    last_delay_samples: usize,
}

impl<T: Copy> Delay<T> {
    pub closed spec fn rate(&self) -> u32 {
        self.sample_rate
    }

    pub closed spec fn ring(&self) -> RingState<T> {
        self.ringbuf@
    }

    pub closed spec fn last_delay(&self) -> usize {
        self.last_delay_samples
    }

    /// The buffer has the capacity for the rate; the read position trails the
    /// write position by the last delay; and every slot but the one at the
    /// write position has been written.
    pub open spec fn inv(&self) -> bool {
        let s = self.ring();
        let c = s.capacity();
        &&& s.wf()
        &&& c == delay_capacity(self.rate())
        &&& c > 0
        &&& s.read == read_behind(s.write, self.last_delay() as nat, c)
        &&& self.last_delay() + c <= isize::MAX
        &&& forall|i: int| 0 <= i < c && i != s.write ==> (#[trigger] s.slots[i]) is Some
    }

    /// A delay line at sample rate `sample_rate`, silent: every slot holds
    /// `silence` and the delay is 0.
    pub fn new(sample_rate: u32, silence: T) -> (r: Self)
        requires
            sample_rate > 0,
            delay_capacity(sample_rate) <= isize::MAX,
        ensures
            r.inv(),
            r.rate() == sample_rate,
            r.ring().capacity() == 5 * sample_rate,
            r.last_delay() == 0,
            forall|i: int| 0 <= i < r.ring().capacity() && i != r.ring().write ==> #[trigger] r.ring().slots[i] == Some(silence),
    {
        let buffer_size = sample_rate as usize * MAX_SECONDS;
        let ringbuf = RingBuffer::new(buffer_size).flooded(silence);
        let mut ringbuf = ringbuf;
        let ghost flooded = ringbuf@;
        proof {
            let c = buffer_size as int;
            lemma_len_bounds(flooded);
            // Flooding an empty buffer at position 0 writes every slot but the last.
            assert(flooded.read == 0);
            lemma_wrap((flooded.write + c - flooded.read) as int, c);
            assert(flooded.write == c - 1);
            assert forall|i: int| 0 <= i < c - 1 implies #[trigger] flooded.slots[i] == Some(silence) by {
                lemma_wrap(i, c);
                assert(flooded.contents()[i] == flooded.slot_after_read(i));
            }
        }
        ringbuf.move_read_index((buffer_size - 1) as isize);
        let r = Delay { sample_rate, ringbuf, last_delay_samples: 0 };
        proof {
            let c = buffer_size as int;
            vstd::arithmetic::div_mod::lemma_small_mod((c - 1) as nat, c as nat);
        }
        r
    }

    /// The sample rate.
    pub fn sample_rate(&self) -> (r: u32)
        ensures
            r == self.rate(),
    {
        self.sample_rate
    }

    /// One sample: the delay moves to `delay_ms` milliseconds if that
    /// changed, `input` is written, and the sample that many samples behind
    /// it is read. The output is `input` itself for a delay of 0.
    ///
    /// A delay of one sample less than a whole number of buffer lengths
    /// would fill the buffer; it is left out, as is a delay whose sample
    /// count does not fit the arithmetic.
    pub fn process(&mut self, input: T, delay_ms: usize) -> (output: T)
        requires
            old(self).inv(),
            delay_ms * old(self).rate() <= usize::MAX,
            samples_for(delay_ms as nat, old(self).rate() as nat) + old(self).ring().capacity() <= isize::MAX,
            samples_for(delay_ms as nat, old(self).rate() as nat) % old(self).ring().capacity()
                != old(self).ring().capacity() - 1,
        ensures
            final(self).inv(),
            final(self).rate() == old(self).rate(),
            final(self).ring().capacity() == old(self).ring().capacity(),
            final(self).ring().write == ((old(self).ring().write + 1) as int) % (old(self).ring().capacity() as int),
            final(self).last_delay() == delay_ms * old(self).rate() / 1000,
            final(self).ring().slots == old(self).ring().slots.update(
                old(self).ring().write as int,
                Some(input),
            ),
            Some(output) == final(self).ring().slots[read_behind(
                old(self).ring().write,
                (delay_ms * old(self).rate() / 1000) as nat,
                old(self).ring().capacity(),
            ) as int],
            samples_for(delay_ms as nat, old(self).rate() as nat) % old(self).ring().capacity() == 0
                ==> output == input,
    {
        let product: usize = delay_ms * (self.sample_rate as usize);
        let delay_samples: usize = product / 1000;
        let ghost c = self.ring().capacity() as int;
        let ghost w = self.ring().write as int;
        if delay_samples != self.last_delay_samples {
            let offset = self.last_delay_samples as isize - delay_samples as isize;
            self.ringbuf.move_read_index(offset);
            self.last_delay_samples = delay_samples;
            proof {
                let r0 = old(self).ring().read as int;
                let l = old(self).last_delay() as int;
                let d = delay_samples as int;
                lemma_read_behind_shift(w, l, d, c, r0);
            }
        }
        proof {
            assert(self.ring().read == read_behind(w as nat, delay_samples as nat, c as nat));
            lemma_not_full(self.ring(), delay_samples as nat);
        }
        let pushed = self.ringbuf.push(input);
        proof {
            assert(pushed is Ok);
        }
        let ghost after_push = self.ring();
        proof {
            lemma_wrap(w + 1, c);
            lemma_read_after_write(w, delay_samples as int, c);
            assert(after_push.read != after_push.write);
            assert(after_push.slots[after_push.read as int] is Some);
        }
        let out = self.ringbuf.pop();
        let output = match out {
            Some(v) => v,
            None => input,
        };
        proof {
            assert(out is Some);
            lemma_wrap(after_push.read + 1int, c);
            lemma_wrap(w + 1, c);
            lemma_advance_behind(w, delay_samples as int, c);
            if (delay_samples as int) % c == 0 {
                lemma_zero_delay_reads_write(w, delay_samples as int, c);
            }
            assert forall|i: int| 0 <= i < c && i != self.ring().write implies (
            #[trigger] self.ring().slots[i]) is Some by {
                if i != w {
                    assert(old(self).ring().slots[i] is Some);
                }
            }
        }
        output
    }
}

/// The slots after `inputs` are written one per step, the first at
/// position `w` and each next one a position further round the buffer.
pub open spec fn written<T>(slots: Seq<Option<T>>, w: int, c: int, inputs: Seq<T>) -> Seq<Option<T>>
    decreases inputs.len(),
{
    if inputs.len() == 0 {
        slots
    } else {
        written(slots, w, c, inputs.drop_last()).update(
            (w + inputs.len() - 1) % c,
            Some(inputs.last()),
        )
    }
}

/// Law: with the delay held at `d` samples, less than the buffer's
/// capacity, each output is the input of `d` steps before. After the
/// inputs are written from position `w` on, the last step, which wrote at
/// `(w + n - 1) % c`, reads back the input written `d` steps earlier.
pub proof fn lemma_delay_echo<T>(slots: Seq<Option<T>>, w: nat, c: nat, inputs: Seq<T>, d: nat)
    requires
        c > 0,
        slots.len() == c,
        w < c,
        d < c,
        inputs.len() > d,
    ensures
        written(slots, w as int, c as int, inputs)[read_behind(
            ((w + inputs.len() - 1) % (c as int)) as nat,
            d,
            c,
        ) as int] == Some(inputs[inputs.len() - 1 - d]),
{
    let n = inputs.len() as int;
    let j = n - 1 - d;
    let p = (w + j) % (c as int);
    vstd::arithmetic::div_mod::lemma_mod_bound(w + n - 1, c as int);
    assert(read_behind(((w + n - 1) % (c as int)) as nat, d, c) == p) by {
        lemma_mod_sub_congruent(w + n - 1, d as int, c as int);
        assert(w + n - 1 - d == w + j);
    }
    assert(inputs.take(n) =~= inputs);
    lemma_written_keeps(slots, w as int, c as int, inputs, j, n);
}

/// Law: a run of calls of `process` with the delay held at `d` samples (at
/// most the capacity less two, as `process` demands) is a pure delay of
/// `d` samples. Starting from slots that hold `silence` everywhere but at
/// the write position `w` (as `Delay::new` leaves them), the `t`-th call
/// writes at `(w + t) % c` and outputs the input of call `t - d`, or
/// `silence` for the first `d` calls.
pub proof fn lemma_delay_run<T>(
    slots: Seq<Option<T>>,
    w: nat,
    c: nat,
    inputs: Seq<T>,
    d: nat,
    silence: T,
)
    requires
        c > 0,
        slots.len() == c,
        w < c,
        d + 1 < c,
        forall|i: int| 0 <= i < c && i != w ==> #[trigger] slots[i] == Some(silence),
        inputs.len() > 0,
    ensures
        written(slots, w as int, c as int, inputs)[read_behind(
            ((w + inputs.len() - 1) % (c as int)) as nat,
            d,
            c,
        ) as int] == (if inputs.len() - 1 >= d {
            Some(inputs[inputs.len() - 1 - d])
        } else {
            Some(silence)
        }),
{
    let n = inputs.len() as int;
    let t = n - 1;
    if t >= d {
        lemma_delay_echo(slots, w, c, inputs, d);
    } else {
        let ci = c as int;
        let q = (w + t - d) % ci;
        lemma_mod_sub_congruent(w + t, d as int, ci);
        assert(read_behind(((w + t) % ci) as nat, d, c) == q);
        vstd::arithmetic::div_mod::lemma_mod_bound(w + t - d, ci);
        assert forall|i: int| 0 <= i < n implies #[trigger] write_pos(w as int, i, ci) != q by {
            if (w + i) % ci == q {
                lemma_congruent(w + i, w + t - d, ci);
                lemma_negative_not_multiple(t - d - i, ci);
                assert(w + t - d - (w + i) == t - d - i);
            }
        }
        lemma_written_untouched(slots, w as int, ci, inputs, q);
        vstd::arithmetic::div_mod::lemma_small_mod(w, c);
        assert(write_pos(w as int, 0, ci) != q);
        assert(q != w);
        assert(slots[q] == Some(silence));
    }
}

/// The position that write number `i` of a run starting at `w` goes to.
pub open spec fn write_pos(w: int, i: int, c: int) -> int {
    (w + i) % c
}

/// A number strictly between `-c` and 0 is no multiple of `c`.
proof fn lemma_negative_not_multiple(x: int, c: int)
    requires
        c > 0,
        -c < x < 0,
    ensures
        x % c != 0,
{
    vstd::arithmetic::div_mod::lemma_fundamental_div_mod_converse_mod(x, c, -1, x + c);
}

/// A slot that none of the writes reaches keeps its value.
proof fn lemma_written_untouched<T>(slots: Seq<Option<T>>, w: int, c: int, inputs: Seq<T>, q: int)
    requires
        c > 0,
        slots.len() == c,
        0 <= q < c,
        forall|i: int| 0 <= i < inputs.len() ==> #[trigger] write_pos(w, i, c) != q,
    ensures
        written(slots, w, c, inputs)[q] == slots[q],
    decreases inputs.len(),
{
    if inputs.len() > 0 {
        let p = inputs.drop_last();
        lemma_written_untouched(slots, w, c, p, q);
        assert(write_pos(w, inputs.len() - 1, c) != q);
        lemma_written_len(slots, w, c, p);
    }
}

/// `((a % c) - d) % c == (a - d) % c`.
proof fn lemma_mod_sub_congruent(a: int, d: int, c: int)
    requires
        c > 0,
    ensures
        ((a % c) - d) % c == (a - d) % c,
{
    vstd::arithmetic::div_mod::lemma_fundamental_div_mod(a, c);
    let q = a / c;
    assert((a % c) - d == (a - d) + c * (-q)) by (nonlinear_arith)
        requires
            a == c * q + a % c,
    ;
    vstd::arithmetic::div_mod::lemma_mod_multiples_vanish(-q, a - d, c);
    assert(c * (-q) + (a - d) == (a % c) - d);
}

/// The input at index `j` stays in its slot while at most `c - 1` further
/// inputs are written after it.
proof fn lemma_written_keeps<T>(slots: Seq<Option<T>>, w: int, c: int, inputs: Seq<T>, j: int, m: int)
    requires
        c > 0,
        slots.len() == c,
        0 <= w < c,
        0 <= j < m <= inputs.len(),
        m - 1 - j < c,
    ensures
        written(slots, w, c, inputs.take(m))[(w + j) % c] == Some(inputs[j]),
        written(slots, w, c, inputs.take(m)).len() == c,
    decreases m,
{
    let t = inputs.take(m);
    assert(t.drop_last() =~= inputs.take(m - 1));
    vstd::arithmetic::div_mod::lemma_mod_bound(w + m - 1, c);
    if m - 1 == j {
        lemma_written_len(slots, w, c, inputs.take(m - 1));
        assert(t.last() == inputs[j]);
    } else {
        lemma_written_keeps(slots, w, c, inputs, j, m - 1);
        // The slot written last is another one: it lies 1 to c - 1 places on.
        if (w + m - 1) % c == (w + j) % c {
            lemma_congruent(w + j, w + m - 1, c);
            vstd::arithmetic::div_mod::lemma_small_mod((m - 1 - j) as nat, c as nat);
        }
    }
}

/// Writing keeps the number of slots.
proof fn lemma_written_len<T>(slots: Seq<Option<T>>, w: int, c: int, inputs: Seq<T>)
    requires
        c > 0,
        slots.len() == c,
    ensures
        written(slots, w, c, inputs).len() == c,
    decreases inputs.len(),
{
    if inputs.len() > 0 {
        lemma_written_len(slots, w, c, inputs.drop_last());
    }
}

/// Moving the read position by `l - d` turns a lag of `l` into a lag of `d`.
proof fn lemma_read_behind_shift(w: int, l: int, d: int, c: int, r0: int)
    requires
        c > 0,
        0 <= w < c,
        l >= 0,
        d >= 0,
        r0 == (w - l) % c,
    ensures
        (r0 + (l - d)) % c == (w - d) % c,
{
    let q = (w - l) / c;
    vstd::arithmetic::div_mod::lemma_fundamental_div_mod(w - l, c);
    assert(w - l == c * q + r0);
    assert(r0 + (l - d) == (w - d) + c * (-q)) by (nonlinear_arith)
        requires
            w - l == c * q + r0,
    ;
    vstd::arithmetic::div_mod::lemma_mod_multiples_vanish(-q, w - d, c);
    assert(c * (-q) + (w - d) == (w - d) + c * (-q));
}

/// With a lag of `d`, not congruent to `c - 1`, the buffer is not full.
proof fn lemma_not_full<T>(s: RingState<T>, d: nat)
    requires
        s.wf(),
        s.capacity() > 0,
        s.read == read_behind(s.write, d, s.capacity()),
        d % s.capacity() != s.capacity() - 1,
    ensures
        !s.is_full(),
{
    let c = s.capacity() as int;
    let w = s.write as int;
    lemma_wrap(w + 1, c);
    if s.is_full() {
        // (w - d) % c == (w + 1) % c gives d + 1 == 0 (mod c).
        lemma_congruent(w - d, w + 1, c);
        assert((w + 1 - (w - d)) % c == 0);
        assert(((d + 1) as int) % c == 0);
        lemma_mod_plus_one(d as int, c);
    }
}

/// Two numbers with the same remainder differ by a multiple.
proof fn lemma_congruent(a: int, b: int, c: int)
    requires
        c > 0,
        a % c == b % c,
    ensures
        (b - a) % c == 0,
{
    vstd::arithmetic::div_mod::lemma_fundamental_div_mod(a, c);
    vstd::arithmetic::div_mod::lemma_fundamental_div_mod(b, c);
    let qa = a / c;
    let qb = b / c;
    assert(b - a == c * (qb - qa)) by (nonlinear_arith)
        requires
            a == c * qa + a % c,
            b == c * qb + b % c,
            a % c == b % c,
    ;
    vstd::arithmetic::div_mod::lemma_mod_multiples_vanish(qb - qa, 0, c);
    assert(c * (qb - qa) + 0 == b - a);
}

/// If `d + 1` is a multiple of `c` then `d % c == c - 1`.
proof fn lemma_mod_plus_one(d: int, c: int)
    requires
        c > 0,
        d >= 0,
        (d + 1) % c == 0,
    ensures
        d % c == c - 1,
{
    vstd::arithmetic::div_mod::lemma_fundamental_div_mod(d + 1, c);
    let q = (d + 1) / c;
    assert(d + 1 == c * q);
    assert(q >= 1) by (nonlinear_arith)
        requires
            d + 1 == c * q,
            c > 0,
            d >= 0,
    ;
    assert(d == c * (q - 1) + (c - 1)) by (nonlinear_arith)
        requires
            d + 1 == c * q,
    ;
    vstd::arithmetic::div_mod::lemma_fundamental_div_mod_converse_mod(d, c, q - 1, c - 1);
}

/// After the write position advances, the read position lags it by `d + 1`.
proof fn lemma_read_after_write(w: int, d: int, c: int)
    requires
        c > 0,
        0 <= w < c,
        d >= 0,
        d % c != c - 1,
    ensures
        (w - d) % c != (w + 1) % c,
{
    if (w - d) % c == (w + 1) % c {
        lemma_congruent(w - d, w + 1, c);
        assert(w + 1 - (w - d) == d + 1);
        lemma_mod_plus_one(d, c);
    }
}

/// After both positions advance by one, the lag is unchanged.
proof fn lemma_advance_behind(w: int, d: int, c: int)
    requires
        c > 0,
        0 <= w < c,
        d >= 0,
    ensures
        wrap((w - d) % c + 1, c) == (wrap(w + 1, c) - d) % c,
{
    let r = (w - d) % c;
    vstd::arithmetic::div_mod::lemma_mod_bound(w - d, c);
    lemma_wrap(r + 1, c);
    vstd::arithmetic::div_mod::lemma_add_mod_noop(w - d, 1, c);
    if c == 1 {
        assert(1int % c == 0);
    } else {
        vstd::arithmetic::div_mod::lemma_small_mod(1, c as nat);
    }
    vstd::arithmetic::div_mod::lemma_mod_bound(w - d + 1, c);
    if w + 1 == c {
        vstd::arithmetic::div_mod::lemma_mod_multiples_vanish(1, -d, c);
        assert(c * 1 + (-d) == w + 1 - d);
    }
}

/// A lag that is a multiple of the capacity reads the slot just written.
proof fn lemma_zero_delay_reads_write(w: int, d: int, c: int)
    requires
        c > 0,
        0 <= w < c,
        d >= 0,
        d % c == 0,
    ensures
        (w - d) % c == w,
{
    vstd::arithmetic::div_mod::lemma_fundamental_div_mod(d, c);
    let q = d / c;
    assert(w - d == c * (-q) + w) by (nonlinear_arith)
        requires
            d == c * q + 0,
    ;
    vstd::arithmetic::div_mod::lemma_mod_multiples_vanish(-q, w, c);
    vstd::arithmetic::div_mod::lemma_small_mod(w as nat, c as nat);
}

} // verus!
