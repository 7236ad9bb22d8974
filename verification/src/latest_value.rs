//! The subscriptions of the latest-value channel: which port's current value
//! goes into which slot of a shared buffer.
use vstd::prelude::*;
use crate::graph::port::PortKey;

verus! {

/// The number of slots in the shared buffer; subscriptions to higher slots
/// are kept but never written.
pub const MAX_SUBSCRIPTIONS: usize = 2048;

/// Whether a subscription is for a slot other than `index`, as a function
/// value.
pub open spec fn slot_differs(index: usize) -> spec_fn((PortKey, usize)) -> bool {
    |e: (PortKey, usize)| e.1 != index
}

/// No slot has two subscriptions.
pub open spec fn slots_distinct(subs: Seq<(PortKey, usize)>) -> bool {
    forall|i: int, j: int| 0 <= i < j < subs.len() ==> (#[trigger] subs[i]).1 != (#[trigger] subs[j]).1
}

/// The subscriptions after slot `index` is taken by `port`.
pub open spec fn subscribed(subs: Seq<(PortKey, usize)>, port: PortKey, index: usize) -> Seq<
    (PortKey, usize),
> {
    subs.filter(slot_differs(index)).push((port, index))
}

/// The subscriptions after slot `index` is freed.
pub open spec fn unsubscribed(subs: Seq<(PortKey, usize)>, index: usize) -> Seq<(PortKey, usize)> {
    subs.filter(slot_differs(index))
}

/// Keeps the subscriptions for slots other than `index`, in order.
pub fn retain_other_slots(subs: &mut Vec<(PortKey, usize)>, index: usize)
    ensures
        final(subs)@ == unsubscribed(old(subs)@, index),
        slots_distinct(old(subs)@) ==> slots_distinct(final(subs)@),
{
    let ghost pred = slot_differs(index);
    let ghost orig = old(subs)@;
    let mut kept: Vec<(PortKey, usize)> = Vec::new();
    let mut i: usize = 0;
    while i < subs.len()
        invariant
            subs@ == orig,
            pred == slot_differs(index),
            i <= orig.len(),
            kept@ == orig.take(i as int).filter(pred),
            slots_distinct(orig) ==> slots_distinct(kept@),
        decreases orig.len() - i,
    {
        let e = subs[i];
        proof {
            reveal(Seq::filter);
            assert(orig.take(i + 1).drop_last() =~= orig.take(i as int));
            assert(orig.take(i + 1).last() == e);
        }
        if e.1 != index {
            proof {
                if slots_distinct(orig) {
                    assert forall|k: int| 0 <= k < kept@.len() implies (#[trigger] kept@[k]).1 != e.1 by {
                        let x = kept@[k];
                        assert(orig.take(i as int).filter(pred).contains(x));
                        orig.take(i as int).lemma_filter_contains_rev(pred, x);
                        let j = choose|j: int| 0 <= j < i && #[trigger] orig.take(i as int)[j] == x;
                        assert(orig[j] == x);
                    }
                }
            }
            kept.push(e);
        }
        i = i + 1;
    }
    proof {
        assert(orig.take(orig.len() as int) =~= orig);
    }
    *subs = kept;
}

/// Law: after a subscription to slot `index`, the slot has exactly one
/// subscription, the new one, and every other slot keeps its own.
pub proof fn lemma_subscribe_takes_slot(subs: Seq<(PortKey, usize)>, port: PortKey, index: usize)
    requires
        slots_distinct(subs),
    ensures
        slots_distinct(subscribed(subs, port, index)),
        subscribed(subs, port, index).last() == (port, index),
        forall|i: int|
            0 <= i < subscribed(subs, port, index).len() - 1 ==> (#[trigger] subscribed(
                subs,
                port,
                index,
            )[i]).1 != index,
        forall|e: (PortKey, usize)| e.1 != index ==> (subs.contains(e) <==> #[trigger] subscribed(
            subs,
            port,
            index,
        ).contains(e)),
{
    let kept = subs.filter(slot_differs(index));
    let s = kept.push((port, index));
    assert forall|i: int| 0 <= i < kept.len() implies (#[trigger] kept[i]).1 != index by {
        subs.lemma_filter_pred(slot_differs(index), i);
    }
    lemma_filter_keeps_distinct(subs, index);
    assert forall|i: int| 0 <= i < s.len() - 1 implies (#[trigger] s[i]).1 != index by {
        assert(s[i] == kept[i]);
    }
    assert forall|i: int, j: int| 0 <= i < j < s.len() implies (#[trigger] s[i]).1 != (
    #[trigger] s[j]).1 by {
        assert(s[i] == kept[i]);
        if j < kept.len() {
            assert(s[j] == kept[j]);
        }
    }
    assert forall|e: (PortKey, usize)| e.1 != index implies (subs.contains(e) <==> #[trigger] s.contains(
        e,
    )) by {
        if subs.contains(e) {
            let i = choose|i: int| 0 <= i < subs.len() && subs[i] == e;
            subs.lemma_filter_contains(slot_differs(index), i);
            let j = choose|j: int| 0 <= j < kept.len() && kept[j] == e;
            assert(s[j] == e);
        }
        if s.contains(e) {
            let j = choose|j: int| 0 <= j < s.len() && s[j] == e;
            assert(j < kept.len());
            assert(kept.contains(e));
            subs.lemma_filter_contains_rev(slot_differs(index), e);
        }
    }
}

proof fn lemma_filter_keeps_distinct(subs: Seq<(PortKey, usize)>, index: usize)
    requires
        slots_distinct(subs),
    ensures
        slots_distinct(subs.filter(slot_differs(index))),
    decreases subs.len(),
{
    reveal(Seq::filter);
    if subs.len() > 0 {
        let init = subs.drop_last();
        assert forall|i: int, j: int| 0 <= i < j < init.len() implies (#[trigger] init[i]).1 != (
        #[trigger] init[j]).1 by {
            assert(init[i] == subs[i] && init[j] == subs[j]);
        }
        lemma_filter_keeps_distinct(init, index);
        let f = init.filter(slot_differs(index));
        if slot_differs(index)(subs.last()) {
            assert forall|k: int| 0 <= k < f.len() implies (#[trigger] f[k]).1 != subs.last().1 by {
                let x = f[k];
                init.lemma_filter_contains_rev(slot_differs(index), x);
                let j = choose|j: int| 0 <= j < init.len() && init[j] == x;
                assert(subs[j] == x);
            }
            let g = f.push(subs.last());
            assert forall|i: int, j: int| 0 <= i < j < g.len() implies (#[trigger] g[i]).1 != (
            #[trigger] g[j]).1 by {
                assert(g[i] == f[i]);
                if j < f.len() {
                    assert(g[j] == f[j]);
                }
            }
        }
    }
}

/// The subscriptions of the latest-value channel, with the handle `B` of
/// the buffer their values are written to.
pub struct LatestValueWriter<B> {
    buffer: B,
    subscriptions: Vec<(PortKey, usize)>,
}

impl<B> LatestValueWriter<B> {
    pub closed spec fn subs(&self) -> Seq<(PortKey, usize)> {
        self.subscriptions@
    }

    pub closed spec fn buffer_handle(&self) -> B {
        self.buffer
    }

    /// No slot has two subscriptions.
    pub open spec fn inv(&self) -> bool {
        slots_distinct(self.subs())
    }

    /// A writer to `buffer` with no subscriptions.
    pub fn new(buffer: B) -> (r: Self)
        ensures
            r.inv(),
            r.subs().len() == 0,
            r.buffer_handle() == buffer,
    {
        LatestValueWriter { buffer, subscriptions: Vec::new() }
    }

    /// The buffer handle.
    pub fn buffer(&self) -> (r: &B)
        ensures
            *r == self.buffer_handle(),
    {
        &self.buffer
    }

    /// The subscriptions, oldest first.
    pub fn subscriptions(&self) -> (r: &[(PortKey, usize)])
        ensures
            r@ == self.subs(),
    {
        self.subscriptions.as_slice()
    }

    /// Writes the values of `port` to slot `index` from now on, in place of
    /// whatever port slot `index` had.
    pub fn subscribe(&mut self, port: PortKey, index: usize)
        requires
            old(self).inv(),
        ensures
            final(self).inv(),
            final(self).subs() == subscribed(old(self).subs(), port, index),
            final(self).buffer_handle() == old(self).buffer_handle(),
    {
        retain_other_slots(&mut self.subscriptions, index);
        self.subscriptions.push((port, index));
        proof {
            lemma_subscribe_takes_slot(old(self).subs(), port, index);
        }
    }

    /// Stops writing to slot `index`.
    pub fn unsubscribe(&mut self, index: usize)
        requires
            old(self).inv(),
        ensures
            final(self).inv(),
            final(self).subs() == unsubscribed(old(self).subs(), index),
            final(self).buffer_handle() == old(self).buffer_handle(),
    {
        retain_other_slots(&mut self.subscriptions, index);
    }
}


/// The slot writes that the values looked up for the first `n`
/// subscriptions make, in order: a subscription whose port had a value, and
/// whose slot lies inside the buffer, writes that value to its slot.
pub open spec fn slot_writes<T>(subs: Seq<(PortKey, usize)>, values: Seq<Option<T>>, n: nat) -> Seq<
    (usize, T),
>
    decreases n,
{
    if n == 0 {
        Seq::empty()
    } else {
        let prev = slot_writes(subs, values, (n - 1) as nat);
        let index = subs[n - 1].1;
        match values[n - 1] {
            Some(v) => if index < MAX_SUBSCRIPTIONS {
                prev.push((index, v))
            } else {
                prev
            },
            None => prev,
        }
    }
}

impl<B> LatestValueWriter<B> {
    /// The slot writes for one round, given the value that each subscribed
    /// port has (`values[i]` for the `i`-th subscription, `None` where the
    /// port has none).
    pub fn slot_writes_for<T: Copy>(&self, values: &[Option<T>]) -> (writes: Vec<(usize, T)>)
        requires
            values@.len() == self.subs().len(),
        ensures
            writes@ == slot_writes(self.subs(), values@, self.subs().len()),
    {
        let mut writes: Vec<(usize, T)> = Vec::new();
        let mut i: usize = 0;
        while i < self.subscriptions.len()
            invariant
                i <= self.subs().len(),
                values@.len() == self.subs().len(),
                writes@ == slot_writes(self.subs(), values@, i as nat),
            decreases self.subs().len() - i,
        {
            let index = self.subscriptions[i].1;
            match values[i] {
                Some(v) => {
                    if index < MAX_SUBSCRIPTIONS {
                        writes.push((index, v));
                    }
                },
                None => {},
            }
            i = i + 1;
        }
        writes
    }
}

/// The reading end of the latest-value channel: it only hands out the
/// buffer it reads.
pub struct LatestValueReader<B> {
    buffer: B,
}

impl<B> LatestValueReader<B> {
    pub closed spec fn buffer_handle(&self) -> B {
        self.buffer
    }

    /// A reader of `buffer`.
    pub fn new(buffer: B) -> (r: Self)
        ensures
            r.buffer_handle() == buffer,
    {
        LatestValueReader { buffer }
    }

    /// The buffer handle.
    pub fn buffer(&self) -> (r: &B)
        ensures
            *r == self.buffer_handle(),
    {
        &self.buffer
    }
}

} // verus!
