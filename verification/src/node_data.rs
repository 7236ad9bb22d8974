//! The node-data channel: per subscribed port, samples are gathered into a
//! frame of `BUFFER_SIZE`; each full frame is published to the subscriber's
//! slot of a shared buffer.
use vstd::prelude::*;
use crate::graph::port::PortKey;
use crate::latest_value::{retain_other_slots, slots_distinct, subscribed, unsubscribed, lemma_subscribe_takes_slot};

verus! {

/// The number of slots.
pub const MAX_SUBSCRIPTIONS: usize = 64;

/// The number of samples in a frame.
pub const BUFFER_SIZE: usize = 2048;

/// The size of a slot in the shared buffer: a generation counter, then a
/// frame.
pub const STRIDE: usize = 1 + BUFFER_SIZE;

/// The next version number, wrapping around.
pub open spec fn next_version(v: u64) -> u64 {
    if v == u64::MAX {
        0
    } else {
        (v + 1) as u64
    }
}

/// The number of samples of a batch that fit in the frame at `pos`.
pub open spec fn fitting(pos: nat, batch_len: nat) -> nat {
    if batch_len <= BUFFER_SIZE - pos {
        batch_len
    } else {
        (BUFFER_SIZE - pos) as nat
    }
}

/// The frame after the samples of `batch` that fit are written at `pos`;
/// the rest of the batch is dropped.
pub open spec fn absorbed<T>(frame: Seq<T>, pos: nat, batch: Seq<T>) -> Seq<T> {
    let n = fitting(pos, batch.len());
    frame.take(pos as int) + batch.take(n as int) + frame.skip((pos + n) as int)
}

/// Whether writing `batch` at `pos` fills the frame.
pub open spec fn fills<T>(pos: nat, batch: Seq<T>) -> bool {
    pos + fitting(pos, batch.len()) >= BUFFER_SIZE
}

/// The position after writing `batch` at `pos`: back to 0 when the frame
/// fills.
pub open spec fn advanced<T>(pos: nat, batch: Seq<T>) -> nat {
    if fills(pos, batch) {
        0
    } else {
        pos + fitting(pos, batch.len())
    }
}

/// The frames that writing the batches publishes, in order: one for each of
/// the first `m` subscriptions whose frame the batch fills, with its slot.
pub open spec fn published_frames<T>(
    subs: Seq<(PortKey, usize)>,
    frames: Seq<Seq<T>>,
    positions: Seq<usize>,
    batches: Seq<Seq<T>>,
    m: nat,
) -> Seq<(usize, Seq<T>)> {
    Seq::new(m, |k: int| k).filter_map(publish_step(subs, frames, positions, batches))
}

/// The frame that the `k`-th batch publishes, if it fills its frame.
pub open spec fn publish_step<T>(
    subs: Seq<(PortKey, usize)>,
    frames: Seq<Seq<T>>,
    positions: Seq<usize>,
    batches: Seq<Seq<T>>,
) -> spec_fn(int) -> Option<(usize, Seq<T>)> {
    |k: int|
        {
            let slot = subs[k].1;
            if fills(positions[slot as int] as nat, batches[k]) {
                Some((slot, absorbed(frames[slot as int], positions[slot as int] as nat, batches[k])))
            } else {
                None
            }
        }
}

/// Whether one of the first `m` subscriptions is for `slot`.
pub open spec fn touched(subs: Seq<(PortKey, usize)>, m: nat, slot: int) -> bool {
    exists|k: int| 0 <= k < m && #[trigger] subs[k].1 == slot
}

/// The smaller of two lengths.
pub open spec fn paired(a: nat, b: nat) -> nat {
    if a <= b {
        a
    } else {
        b
    }
}

/// The views of a list of vectors.
pub open spec fn views<T>(v: Seq<Vec<T>>) -> Seq<Seq<T>> {
    v.map_values(|a: Vec<T>| a@)
}

/// `frame[..pos] ++ batch[..n] ++ frame[pos + n..]`.
fn splice<T: Copy>(frame: &Vec<T>, pos: usize, batch: &Vec<T>, n: usize) -> (r: Vec<T>)
    requires
        pos + n <= frame@.len(),
        n <= batch@.len(),
    ensures
        r@ == frame@.take(pos as int) + batch@.take(n as int) + frame@.skip(pos + n),
{
    let mut r: Vec<T> = Vec::new();
    let mut i: usize = 0;
    while i < pos
        invariant
            i <= pos,
            pos + n <= frame@.len(),
            r@ == frame@.take(i as int),
        decreases pos - i,
    {
        r.push(frame[i]);
        i = i + 1;
        assert(r@ =~= frame@.take(i as int));
    }
    let mut j: usize = 0;
    while j < n
        invariant
            j <= n,
            n <= batch@.len(),
            r@ == frame@.take(pos as int) + batch@.take(j as int),
        decreases n - j,
    {
        r.push(batch[j]);
        j = j + 1;
        assert(r@ =~= frame@.take(pos as int) + batch@.take(j as int));
    }
    let flen = frame.len();
    let mut k: usize = pos + n;
    while k < flen
        invariant
            pos + n <= k <= frame@.len(),
            flen == frame@.len(),
            r@ == frame@.take(pos as int) + batch@.take(n as int) + frame@.subrange(
                pos + n,
                k as int,
            ),
        decreases frame@.len() - k,
    {
        r.push(frame[k]);
        k = k + 1;
        assert(r@ =~= frame@.take(pos as int) + batch@.take(n as int) + frame@.subrange(
            pos + n,
            k as int,
        ));
    }
    assert(frame@.subrange(pos + n, frame@.len() as int) =~= frame@.skip(pos + n));
    r
}

/// A copy of `v`.
fn copied<T: Copy>(v: &Vec<T>) -> (r: Vec<T>)
    ensures
        r@ == v@,
{
    let mut r: Vec<T> = Vec::new();
    let mut i: usize = 0;
    while i < v.len()
        invariant
            i <= v@.len(),
            r@ == v@.take(i as int),
        decreases v@.len() - i,
    {
        r.push(v[i]);
        i = i + 1;
        assert(r@ =~= v@.take(i as int));
    }
    assert(v@.take(v@.len() as int) =~= v@);
    r
}

/// Node-data subscriptions and their frames being gathered, with the handle
/// `B` of the shared buffer; samples are of type `T`.
pub struct NodeDataWriter<B, T> {
    buffer: B,
    subscriptions: Vec<(PortKey, usize)>,
    accumulators: Vec<Vec<T>>,
    accumulator_pos: Vec<usize>,
    version: u64,
}

impl<B, T: Copy> NodeDataWriter<B, T> {
    pub closed spec fn subs(&self) -> Seq<(PortKey, usize)> {
        self.subscriptions@
    }

    /// The frame being gathered in each slot.
    pub closed spec fn frames(&self) -> Seq<Seq<T>> {
        self.accumulators@.map_values(|a: Vec<T>| a@)
    }

    /// How far each slot's frame is filled.
    pub closed spec fn positions(&self) -> Seq<usize> {
        self.accumulator_pos@
    }

    pub closed spec fn version_number(&self) -> u64 {
        self.version
    }

    pub closed spec fn buffer_handle(&self) -> B {
        self.buffer
    }

    /// Subscriptions have distinct slots below `MAX_SUBSCRIPTIONS`; every
    /// slot has a frame of `BUFFER_SIZE` and a position inside it.
    pub open spec fn inv(&self) -> bool {
        &&& slots_distinct(self.subs())
        &&& forall|i: int| 0 <= i < self.subs().len() ==> (#[trigger] self.subs()[i]).1 < MAX_SUBSCRIPTIONS
        &&& self.frames().len() == MAX_SUBSCRIPTIONS
        &&& self.positions().len() == MAX_SUBSCRIPTIONS
        &&& forall|s: int| 0 <= s < MAX_SUBSCRIPTIONS ==> (#[trigger] self.frames()[s]).len() == BUFFER_SIZE
        &&& forall|s: int| 0 <= s < MAX_SUBSCRIPTIONS ==> #[trigger] self.positions()[s] < BUFFER_SIZE
    }

    /// A writer to `buffer` with no subscriptions and every frame filled with
    /// `zero`.
    pub fn new(buffer: B, zero: T) -> (r: Self)
        ensures
            r.inv(),
            r.subs().len() == 0,
            r.frames() == Seq::new(
                MAX_SUBSCRIPTIONS as nat,
                |s: int| Seq::new(BUFFER_SIZE as nat, |i: int| zero),
            ),
            r.positions() == Seq::new(MAX_SUBSCRIPTIONS as nat, |s: int| 0usize),
            r.version_number() == 0,
            r.buffer_handle() == buffer,
    {
        let mut accumulators: Vec<Vec<T>> = Vec::new();
        let mut accumulator_pos: Vec<usize> = Vec::new();
        let mut s: usize = 0;
        while s < MAX_SUBSCRIPTIONS
            invariant
                s <= MAX_SUBSCRIPTIONS,
                accumulators@.len() == s,
                accumulator_pos@ == Seq::new(s as nat, |k: int| 0usize),
                forall|k: int| 0 <= k < s ==> (#[trigger] accumulators@[k])@ == Seq::new(
                    BUFFER_SIZE as nat,
                    |i: int| zero,
                ),
            decreases MAX_SUBSCRIPTIONS - s,
        {
            let mut frame: Vec<T> = Vec::new();
            let mut i: usize = 0;
            while i < BUFFER_SIZE
                invariant
                    i <= BUFFER_SIZE,
                    frame@ == Seq::new(i as nat, |k: int| zero),
                decreases BUFFER_SIZE - i,
            {
                frame.push(zero);
                i = i + 1;
                assert(frame@ =~= Seq::new(i as nat, |k: int| zero));
            }
            accumulators.push(frame);
            accumulator_pos.push(0);
            s = s + 1;
            assert(accumulator_pos@ =~= Seq::new(s as nat, |k: int| 0usize));
        }
        let r = NodeDataWriter {
            buffer,
            subscriptions: Vec::new(),
            accumulators,
            accumulator_pos,
            version: 0,
        };
        proof {
            assert(r.frames() =~= Seq::new(
                MAX_SUBSCRIPTIONS as nat,
                |s: int| Seq::new(BUFFER_SIZE as nat, |i: int| zero),
            ));
        }
        r
    }

    /// The buffer handle.
    pub fn buffer(&self) -> (r: &B)
        ensures
            *r == self.buffer_handle(),
    {
        &self.buffer
    }

    /// The subscriptions, oldest first.
    pub fn subscriptions(&self) -> (r: &[(PortKey, usize)])
        ensures
            r@ == self.subs(),
    {
        self.subscriptions.as_slice()
    }

    /// A number that changes whenever the subscriptions do.
    pub fn version(&self) -> (r: u64)
        ensures
            r == self.version_number(),
    {
        self.version
    }

    /// Gathers the samples of `port` into slot `index` from now on, in place
    /// of whatever port slot `index` had, starting a fresh frame.
    pub fn subscribe(&mut self, port: PortKey, index: usize)
        requires
            old(self).inv(),
            index < MAX_SUBSCRIPTIONS,
        ensures
            final(self).inv(),
            final(self).subs() == subscribed(old(self).subs(), port, index),
            final(self).positions() == old(self).positions().update(index as int, 0),
            final(self).frames() == old(self).frames(),
            final(self).version_number() == next_version(old(self).version_number()),
            final(self).buffer_handle() == old(self).buffer_handle(),
    {
        retain_other_slots(&mut self.subscriptions, index);
        self.subscriptions.push((port, index));
        self.accumulator_pos.set(index, 0);
        self.version = if self.version == u64::MAX {
            0
        } else {
            self.version + 1
        };
        proof {
            lemma_subscribe_takes_slot(old(self).subs(), port, index);
            assert forall|i: int| 0 <= i < self.subs().len() implies (#[trigger] self.subs()[i]).1
                < MAX_SUBSCRIPTIONS by {
                if i < self.subs().len() - 1 {
                    let e = self.subs()[i];
                    assert(self.subs().contains(e));
                    assert(old(self).subs().contains(e));
                }
            }
        }
    }

    /// Stops gathering into slot `index` and resets its frame position.
    pub fn unsubscribe(&mut self, index: usize)
        requires
            old(self).inv(),
            index < MAX_SUBSCRIPTIONS,
        ensures
            final(self).inv(),
            final(self).subs() == unsubscribed(old(self).subs(), index),
            final(self).positions() == old(self).positions().update(index as int, 0),
            final(self).frames() == old(self).frames(),
            final(self).version_number() == next_version(old(self).version_number()),
            final(self).buffer_handle() == old(self).buffer_handle(),
    {
        retain_other_slots(&mut self.subscriptions, index);
        self.accumulator_pos.set(index, 0);
        self.version = if self.version == u64::MAX {
            0
        } else {
            self.version + 1
        };
        proof {
            assert forall|i: int| 0 <= i < self.subs().len() implies (#[trigger] self.subs()[i]).1
                < MAX_SUBSCRIPTIONS by {
                let e = self.subs()[i];
                assert(self.subs().contains(e));
                old(self).subs().lemma_filter_contains_rev(
                    crate::latest_value::slot_differs(index),
                    e,
                );
            }
        }
    }

    /// Writes the `k`-th batch into the frame of the `k`-th subscription,
    /// for as many as there are of both: the samples that fit in the frame
    /// are written at its position and the rest are dropped. Every frame
    /// that fills is returned with its slot, in subscription order, and its
    /// position goes back to 0.
    pub fn write_batches(&mut self, batches: &[Vec<T>]) -> (published: Vec<(usize, Vec<T>)>)
        requires
            old(self).inv(),
        ensures
            final(self).inv(),
            final(self).subs() == old(self).subs(),
            final(self).version_number() == old(self).version_number(),
            final(self).buffer_handle() == old(self).buffer_handle(),
            forall|k: int|
                0 <= k < paired(old(self).subs().len(), batches@.len()) ==> {
                    let slot = (#[trigger] old(self).subs()[k]).1 as int;
                    &&& final(self).frames()[slot] == absorbed(
                        old(self).frames()[slot],
                        old(self).positions()[slot] as nat,
                        views(batches@)[k],
                    )
                    &&& final(self).positions()[slot] == advanced(
                        old(self).positions()[slot] as nat,
                        views(batches@)[k],
                    )
                },
            forall|slot: int|
                0 <= slot < MAX_SUBSCRIPTIONS && !#[trigger] touched(
                    old(self).subs(),
                    paired(old(self).subs().len(), batches@.len()),
                    slot,
                ) ==> {
                    &&& final(self).frames()[slot] == old(self).frames()[slot]
                    &&& final(self).positions()[slot] == old(self).positions()[slot]
                },
            views_of_published(published@) == published_frames(
                old(self).subs(),
                old(self).frames(),
                old(self).positions(),
                views(batches@),
                paired(old(self).subs().len(), batches@.len()),
            ),
    {
        let m = if self.subscriptions.len() <= batches.len() {
            self.subscriptions.len()
        } else {
            batches.len()
        };
        let ghost bs = views(batches@);
        let ghost old_frames = self.frames();
        let ghost old_pos = self.positions();
        let ghost subs = self.subs();
        let ghost g = publish_step(subs, old_frames, old_pos, bs);
        let mut published: Vec<(usize, Vec<T>)> = Vec::new();
        let mut i: usize = 0;
        while i < m
            invariant
                old(self).inv(),
                self.inv(),
                i <= m,
                m <= subs.len(),
                m <= batches@.len(),
                bs == views(batches@),
                subs == old(self).subs(),
                old_frames == old(self).frames(),
                old_pos == old(self).positions(),
                g == publish_step(subs, old_frames, old_pos, bs),
                self.subs() == subs,
                self.version_number() == old(self).version_number(),
                self.buffer_handle() == old(self).buffer_handle(),
                forall|k: int|
                    0 <= k < i ==> {
                        let slot = (#[trigger] subs[k]).1 as int;
                        &&& self.frames()[slot] == absorbed(old_frames[slot], old_pos[slot] as nat, bs[k])
                        &&& self.positions()[slot] == advanced(old_pos[slot] as nat, bs[k])
                    },
                forall|slot: int|
                    0 <= slot < MAX_SUBSCRIPTIONS && !touched(subs, i as nat, slot) ==> {
                        &&& #[trigger] self.frames()[slot] == old_frames[slot]
                        &&& self.positions()[slot] == old_pos[slot]
                    },
                views_of_published(published@) == Seq::new(m as nat, |k: int| k).take(
                    i as int,
                ).filter_map(g),
            decreases m - i,
        {
            let slot = self.subscriptions[i].1;
            let batch = &batches[i];
            proof {
                assert(subs[i as int].1 == slot);
                assert(slot < MAX_SUBSCRIPTIONS);
                assert forall|k: int| 0 <= k < i implies (#[trigger] subs[k]).1 != slot by {
                    assert(subs[k].1 != subs[i as int].1);
                }
                assert(!touched(subs, i as nat, slot as int));
                assert(bs[i as int] == batch@);
            }
            proof {
                assert(self.frames()[slot as int] == self.accumulators@[slot as int]@);
                assert(self.frames()[slot as int] == old_frames[slot as int]);
                assert(self.positions()[slot as int] == old_pos[slot as int]);
            }
            let pos = self.accumulator_pos[slot];
            let room = BUFFER_SIZE - pos;
            let n = if batch.len() <= room {
                batch.len()
            } else {
                room
            };
            let nf = splice(&self.accumulators[slot], pos, batch, n);
            let new_pos = pos + n;
            let ghost before_frames = self.frames();
            let ghost before_pub = views_of_published(published@);
            if new_pos >= BUFFER_SIZE {
                let frame_copy = copied(&nf);
                published.push((slot, frame_copy));
                self.accumulator_pos.set(slot, 0);
            } else {
                self.accumulator_pos.set(slot, new_pos);
            }
            self.accumulators.set(slot, nf);
            proof {
                assert(self.frames() =~= before_frames.update(slot as int, nf@));
                let ks = Seq::new(m as nat, |k: int| k);
                assert(ks.take(i + 1).drop_last() =~= ks.take(i as int));
                assert(ks.take(i + 1).last() == i as int);
                if new_pos >= BUFFER_SIZE {
                    assert(views_of_published(published@) =~= before_pub.push(
                        (slot, nf@),
                    ));
                } else {
                    assert(views_of_published(published@) =~= before_pub);
                }
                assert(nf@ == absorbed(old_frames[slot as int], old_pos[slot as int] as nat, bs[i as int]));
                assert(self.positions()[slot as int] == advanced(old_pos[slot as int] as nat, bs[i as int]));
                assert forall|k: int| 0 <= k < i + 1 implies {
                    let sl = (#[trigger] subs[k]).1 as int;
                    &&& self.frames()[sl] == absorbed(old_frames[sl], old_pos[sl] as nat, bs[k])
                    &&& self.positions()[sl] == advanced(old_pos[sl] as nat, bs[k])
                } by {
                    if k < i {
                        assert(subs[k].1 != slot);
                    }
                }
            }
            i = i + 1;
            proof {
                assert forall|sl: int|
                    0 <= sl < MAX_SUBSCRIPTIONS && !touched(subs, i as nat, sl) implies {
                        &&& #[trigger] self.frames()[sl] == old_frames[sl]
                        &&& self.positions()[sl] == old_pos[sl]
                    } by {
                    assert(subs[i - 1].1 != sl);
                    assert(!touched(subs, (i - 1) as nat, sl));
                    assert(before_frames[sl] == old_frames[sl]);
                    assert(self.frames()[sl] == before_frames[sl]);
                }
            }
        }
        proof {
            assert(Seq::new(m as nat, |k: int| k).take(m as int) =~= Seq::new(m as nat, |k: int| k));
            assert(views_of_published(published@) == published_frames(subs, old_frames, old_pos, bs, m as nat));
            assert(m == paired(old(self).subs().len(), batches@.len()));
            assert forall|slot: int|
                0 <= slot < MAX_SUBSCRIPTIONS && !#[trigger] touched(
                    old(self).subs(),
                    paired(old(self).subs().len(), batches@.len()),
                    slot,
                ) implies {
                    &&& self.frames()[slot] == old(self).frames()[slot]
                    &&& self.positions()[slot] == old(self).positions()[slot]
                } by {
                assert(!touched(subs, i as nat, slot));
                assert(0 <= slot < MAX_SUBSCRIPTIONS);
                assert(self.frames()[slot] == old_frames[slot]);
                assert(self.positions()[slot] == old_pos[slot]);
            }
            assert forall|k: int| 0 <= k < m implies {
                let slot = (#[trigger] old(self).subs()[k]).1 as int;
                &&& self.frames()[slot] == absorbed(
                    old(self).frames()[slot],
                    old(self).positions()[slot] as nat,
                    bs[k],
                )
                &&& self.positions()[slot] == advanced(old(self).positions()[slot] as nat, bs[k])
            } by {
                assert(subs[k] == old(self).subs()[k]);
            }
            assert(bs == views(batches@));
        }
        published
    }
}

/// The slots and views of published frames.
pub open spec fn views_of_published<T>(p: Seq<(usize, Vec<T>)>) -> Seq<(usize, Seq<T>)> {
    p.map_values(|e: (usize, Vec<T>)| (e.0, e.1@))
}


/// The reading end of the node-data channel: it hands out the buffer it
/// reads and the layout of a slot in it.
pub struct NodeDataReader<B> {
    buffer: B,
}

impl<B> NodeDataReader<B> {
    pub closed spec fn buffer_handle(&self) -> B {
        self.buffer
    }

    /// A reader of `buffer`.
    pub fn new(buffer: B) -> (r: Self)
        ensures
            r.buffer_handle() == buffer,
    {
        NodeDataReader { buffer }
    }

    /// The buffer handle.
    pub fn buffer(&self) -> (r: &B)
        ensures
            *r == self.buffer_handle(),
    {
        &self.buffer
    }

    /// The number of words per slot: a generation counter, then a frame.
    pub fn buffer_stride(&self) -> (r: usize)
        ensures
            r == STRIDE,
            r == 1 + BUFFER_SIZE,
    {
        STRIDE
    }
}

/// The batches joined end to end.
pub open spec fn concat_all<T>(bs: Seq<Seq<T>>) -> Seq<T>
    decreases bs.len(),
{
    if bs.len() == 0 {
        Seq::empty()
    } else {
        concat_all(bs.drop_last()) + bs.last()
    }
}

/// One slot over a run of calls of `write_batches`, each giving it the
/// batch in `bs` (as that function's contract describes one call), from a
/// frame `frame` at position 0: the frame, the position, how many frames
/// were published, and the last frame published.
pub open spec fn slot_run<T>(frame: Seq<T>, bs: Seq<Seq<T>>) -> (Seq<T>, nat, nat, Option<Seq<T>>)
    decreases bs.len(),
{
    if bs.len() == 0 {
        (frame, 0, 0, None)
    } else {
        let prev = slot_run(frame, bs.drop_last());
        let b = bs.last();
        let f = absorbed(prev.0, prev.1, b);
        if fills(prev.1, b) {
            (f, 0, prev.2 + 1, Some(f))
        } else {
            (f, advanced(prev.1, b), prev.2, prev.3)
        }
    }
}

/// Law: when every batch of a slot has the same length `L`, a divisor of
/// the frame size, then after `m` batches the slot has published
/// `m * L / BUFFER_SIZE` frames and stands at position
/// `m * L % BUFFER_SIZE`, and the last frame published holds the latest
/// complete run of `BUFFER_SIZE` samples, oldest first.
pub proof fn lemma_slot_publishes_runs<T>(frame: Seq<T>, bs: Seq<Seq<T>>, len: nat, k: nat)
    requires
        frame.len() == BUFFER_SIZE,
        len > 0,
        k * len == BUFFER_SIZE,
        forall|i: int| 0 <= i < bs.len() ==> (#[trigger] bs[i]).len() == len,
    ensures
        slot_run(frame, bs).1 == (bs.len() * len) % (BUFFER_SIZE as nat),
        slot_run(frame, bs).2 == (bs.len() * len) / (BUFFER_SIZE as nat),
        slot_run(frame, bs).2 > 0 ==> slot_run(frame, bs).3 == Some(
            concat_all(bs.subrange((slot_run(frame, bs).2 - 1) * k, (slot_run(frame, bs).2 * k) as int)),
        ),
{
    lemma_slot_run_state(frame, bs, len, k);
    let m = bs.len();
    vstd::arithmetic::div_mod::lemma_mod_bound(m as int, k as int);
    vstd::arithmetic::div_mod::lemma_fundamental_div_mod(m as int, k as int);
    assert(m * len == (m / k) * (BUFFER_SIZE as nat) + (m % k) * len) by (nonlinear_arith)
        requires
            k * len == BUFFER_SIZE,
            m == k * (m / k) + m % k,
    ;
    assert((m % k) * len < BUFFER_SIZE) by (nonlinear_arith)
        requires
            m % k < k,
            k * len == BUFFER_SIZE,
            len > 0,
    ;
    vstd::arithmetic::div_mod::lemma_fundamental_div_mod_converse(
        (m * len) as int,
        BUFFER_SIZE as int,
        (m / k) as int,
        ((m % k) * len) as int,
    );
}

/// The slot after `m` batches of length `len`: `m / k` frames published,
/// position `(m % k) * len`, the frame so far holding the batches since
/// the last publication, and the last frame published holding the `k`
/// batches before it.
proof fn lemma_slot_run_state<T>(frame: Seq<T>, bs: Seq<Seq<T>>, len: nat, k: nat)
    requires
        frame.len() == BUFFER_SIZE,
        len > 0,
        k * len == BUFFER_SIZE,
        forall|i: int| 0 <= i < bs.len() ==> (#[trigger] bs[i]).len() == len,
    ensures
        ({
            let r = slot_run(frame, bs);
            let m = bs.len();
            &&& k > 0
            &&& r.0.len() == BUFFER_SIZE
            &&& r.2 == m / k
            &&& r.1 == (m % k) * len
            &&& r.0.take(r.1 as int) == concat_all(bs.subrange(((m / k) * k) as int, m as int))
            &&& r.2 > 0 ==> r.3 == Some(concat_all(bs.subrange((r.2 - 1) * k, (r.2 * k) as int)))
        }),
    decreases bs.len(),
{
    assert(k > 0) by (nonlinear_arith)
        requires
            k * len == BUFFER_SIZE,
    ;
    let m = bs.len();
    if m == 0 {
        vstd::arithmetic::div_mod::lemma_fundamental_div_mod_converse(0, k as int, 0, 0);
        assert((0nat % k) * len == 0) by (nonlinear_arith)
            requires
                0nat % k == 0,
        ;
        assert((0nat / k) * k == 0) by (nonlinear_arith)
            requires
                0nat / k == 0,
        ;
        assert(concat_all(bs.subrange(0, 0)) =~= Seq::<T>::empty());
        assert(frame.take(0) =~= Seq::<T>::empty());
        return;
    }
    let p = bs.drop_last();
    lemma_slot_run_state(frame, p, len, k);
    let prev = slot_run(frame, p);
    let b = bs.last();
    let pm = (m - 1) as nat;
    let c = pm / k;
    let q = pm % k;
    vstd::arithmetic::div_mod::lemma_fundamental_div_mod(pm as int, k as int);
    vstd::arithmetic::div_mod::lemma_mod_bound(pm as int, k as int);
    assert(b.len() == len);
    assert(c * k + q == pm) by (nonlinear_arith)
        requires
            pm == k * c + q,
    ;
    assert(q * len + len <= BUFFER_SIZE) by (nonlinear_arith)
        requires
            q < k,
            k * len == BUFFER_SIZE,
    ;
    assert((q + 1) * len == q * len + len) by (nonlinear_arith);
    assert(fitting(prev.1, b.len()) == len);
    let f = absorbed(prev.0, prev.1, b);
    assert(f.len() == BUFFER_SIZE);
    // The batches since the last publication, now with `b`.
    let run = bs.subrange((c * k) as int, m as int);
    assert(p.subrange((c * k) as int, pm as int) =~= bs.subrange((c * k) as int, pm as int));
    assert(bs.subrange((c * k) as int, pm as int) =~= run.drop_last());
    assert(run.last() == b);
    assert(concat_all(run) == concat_all(bs.subrange((c * k) as int, pm as int)) + b);
    assert(f.take((q * len + len) as int) =~= prev.0.take(prev.1 as int) + b);
    if q + 1 == k {
        assert((c + 1) * k == c * k + k) by (nonlinear_arith);
        vstd::arithmetic::div_mod::lemma_fundamental_div_mod_converse(m as int, k as int, (c + 1) as int, 0);
        assert(q * len + len == BUFFER_SIZE) by (nonlinear_arith)
            requires
                q + 1 == k,
                k * len == BUFFER_SIZE,
        ;
        assert(f.take(BUFFER_SIZE as int) =~= f);
        assert((c + 1) * k == c * k + k) by (nonlinear_arith);
        assert(((m / k) * k) == m) by (nonlinear_arith)
            requires
                m / k == c + 1,
                m == c * k + q + 1,
                q + 1 == k,
        ;
        assert(bs.subrange(m as int, m as int) =~= Seq::<Seq<T>>::empty());
        assert(f.take(0) =~= Seq::<T>::empty());
        assert(concat_all(bs.subrange(m as int, m as int)) =~= Seq::<T>::empty());
        assert(((c + 1) - 1) * k == c * k);
        assert((c + 1) * k == m);
        assert((m % k) * len == 0) by (nonlinear_arith)
            requires
                m % k == 0,
        ;
        assert(prev.0.take(prev.1 as int) == concat_all(bs.subrange((c * k) as int, pm as int)));
        assert(f =~= f.take((q * len + len) as int));
        assert(f == prev.0.take(prev.1 as int) + b);
        assert(f == concat_all(run));
        let r = slot_run(frame, bs);
        assert(r == (f, 0nat, prev.2 + 1, Some(f)));
        assert(r.0.len() == BUFFER_SIZE);
        assert(r.2 == m / k);
        assert(r.1 == (m % k) * len);
        assert(r.0.take(r.1 as int) == concat_all(bs.subrange(((m / k) * k) as int, m as int)));
        assert(r.3 == Some(concat_all(bs.subrange((r.2 - 1) * k, (r.2 * k) as int))));
    } else {
        vstd::arithmetic::div_mod::lemma_fundamental_div_mod_converse(m as int, k as int, c as int, (q + 1) as int);
        assert((q + 1) * len < BUFFER_SIZE) by (nonlinear_arith)
            requires
                q + 1 < k,
                k * len == BUFFER_SIZE,
                len > 0,
        ;
        assert(!fills(prev.1, b));
        if prev.2 > 0 {
            assert(prev.2 * k <= pm) by (nonlinear_arith)
                requires
                    prev.2 == c,
                    pm == c * k + q,
                    q >= 0,
            ;
            assert((prev.2 - 1) * k >= 0) by (nonlinear_arith)
                requires
                    prev.2 >= 1,
                    k > 0,
            ;
            let lo = (prev.2 - 1) * k;
            let hi = (prev.2 * k) as int;
            assert(lo <= hi) by (nonlinear_arith)
                requires
                    lo == (prev.2 - 1) * k,
                    hi == prev.2 * k,
                    k > 0,
            ;
            assert forall|i: int| 0 <= i < hi - lo implies bs.subrange(lo, hi)[i] == p.subrange(lo, hi)[i] by {
                assert(p[lo + i] == bs[lo + i]);
            }
            assert(bs.subrange(lo, hi) =~= p.subrange(lo, hi));
        }
        assert(c * k == (m / k) * k);
        assert((m % k) * len == q * len + len);
        let r = slot_run(frame, bs);
        assert(r == (f, advanced(prev.1, b), prev.2, prev.3));
        assert(r.0.len() == BUFFER_SIZE);
        assert(r.2 == m / k);
        assert(r.1 == (m % k) * len);
        assert(r.0.take(r.1 as int) == concat_all(bs.subrange(((m / k) * k) as int, m as int)));
        assert(r.2 > 0 ==> r.3 == Some(concat_all(bs.subrange((r.2 - 1) * k, (r.2 * k) as int))));
    }
}

} // verus!
