//! The samples of several ports over one batch, stored port after port.
use vstd::prelude::*;

verus! {

/// The end of chunk `k` of chunks of `size` values out of `len` values.
pub open spec fn chunk_end(k: int, size: int, len: int) -> int {
    if (k + 1) * size < len {
        (k + 1) * size
    } else {
        len
    }
}

/// Values of type `T`: for each port, `batchsize` consecutive samples.
pub struct BatchBuffer<T> {
    batchsize: usize,
    buffer: Vec<T>,
}

impl<T: Copy> BatchBuffer<T> {
    pub closed spec fn size(&self) -> nat {
        self.batchsize as nat
    }

    pub closed spec fn values(&self) -> Seq<T> {
        self.buffer@
    }

    /// An empty buffer with batches of no samples.
    pub fn new() -> (r: Self)
        ensures
            r.size() == 0,
            r.values().len() == 0,
    {
        BatchBuffer { batchsize: 0, buffer: Vec::new() }
    }

    /// The number of samples per batch.
    pub fn batchsize(&self) -> (r: usize)
        ensures
            r == self.size(),
    {
        self.batchsize
    }

    /// Makes room for `ports` batches of `batchsize` samples: the values
    /// kept stay where they were, values past the new length are dropped,
    /// and new places hold `fill`.
    pub fn resize(&mut self, ports: usize, batchsize: usize, fill: T)
        requires
            ports * batchsize <= usize::MAX,
        ensures
            final(self).size() == batchsize,
            final(self).values().len() == ports * batchsize,
            forall|i: int|
                0 <= i < final(self).values().len() && i < old(self).values().len()
                    ==> #[trigger] final(self).values()[i] == old(self).values()[i],
            forall|i: int|
                old(self).values().len() <= i < final(self).values().len()
                    ==> #[trigger] final(self).values()[i] == fill,
    {
        let n: usize = ports * batchsize;
        self.batchsize = batchsize;
        self.buffer.truncate(n);
        while self.buffer.len() < n
            invariant
                self.batchsize == batchsize,
                self.buffer@.len() >= old(self).values().len() || self.buffer@.len() == n,
                self.buffer@.len() <= n,
                forall|i: int|
                    0 <= i < self.buffer@.len() && i < old(self).values().len() ==> #[trigger] self.buffer@[i]
                        == old(self).values()[i],
                forall|i: int|
                    old(self).values().len() <= i < self.buffer@.len() ==> #[trigger] self.buffer@[i] == fill,
            decreases n - self.buffer@.len(),
        {
            self.buffer.push(fill);
        }
    }

    /// Sets sample `sample_index` of the batch of port `port_index`.
    pub fn set_value(&mut self, port_index: usize, sample_index: usize, value: T)
        requires
            port_index * old(self).size() + sample_index < old(self).values().len(),
        ensures
            final(self).size() == old(self).size(),
            final(self).values() == old(self).values().update(
                port_index * old(self).size() + sample_index,
                value,
            ),
    {
        let len = self.buffer.len();
        proof {
            assert(port_index * self.batchsize == port_index * old(self).size());
            assert(port_index * self.batchsize + sample_index < len);
        }
        let i = port_index * self.batchsize + sample_index;
        self.buffer.set(i, value);
    }

    /// The batches in order: consecutive runs of `batchsize` values, the
    /// last one shorter if the values do not divide evenly.
    pub fn batches(&self) -> (r: Vec<Vec<T>>)
        requires
            self.size() > 0,
        ensures
            r.len() == (self.values().len() + self.size() - 1) / (self.size() as int),
            forall|k: int|
                0 <= k < r.len() ==> (#[trigger] r[k])@ == self.values().subrange(
                    k * self.size(),
                    chunk_end(k, self.size() as int, self.values().len() as int),
                ),
    {
        let size = self.batchsize;
        let len = self.buffer.len();
        let ghost s = size as int;
        let mut r: Vec<Vec<T>> = Vec::new();
        let mut start: usize = 0;
        proof {
            assert(0 * s == 0) by (nonlinear_arith);
        }
        while start < len
            invariant
                size == self.size(),
                s == size,
                size > 0,
                len == self.values().len(),
                start <= len,
                start < len ==> start == r.len() * s,
                start <= r.len() * s,
                r.len() * s < len + s,
                forall|k: int|
                    0 <= k < r.len() ==> (#[trigger] r[k])@ == self.values().subrange(
                        k * s,
                        chunk_end(k, s, len as int),
                    ),
            decreases len - start,
        {
            let end: usize = if len - start > size {
                start + size
            } else {
                len
            };
            let mut chunk: Vec<T> = Vec::new();
            let mut i: usize = start;
            while i < end
                invariant
                    start <= i <= end <= len,
                    len == self.buffer@.len(),
                    chunk@ == self.buffer@.subrange(start as int, i as int),
                decreases end - i,
            {
                chunk.push(self.buffer[i]);
                i = i + 1;
                assert(chunk@ =~= self.buffer@.subrange(start as int, i as int));
            }
            let ghost k = r.len() as int;
            proof {
                assert((k + 1) * s == k * s + s) by (nonlinear_arith);
                assert(start == k * s);
                assert(end == chunk_end(k, s, len as int));
            }
            r.push(chunk);
            start = end;
            proof {
                assert(r.len() * s == k * s + s) by (nonlinear_arith)
                    requires
                        r.len() == k + 1,
                ;
                assert forall|j: int| 0 <= j < r.len() implies (#[trigger] r[j])@ == self.values().subrange(
                    j * s,
                    chunk_end(j, s, len as int),
                ) by {
                    if j == k {
                        assert(r[j] == chunk);
                    }
                }
            }
        }
        proof {
            let m = r.len() as int;
            lemma_chunk_count(m, s, len as int);
        }
        r
    }
}

/// `m` chunks of `s` cover `len` values, and `m - 1` do not, exactly when
/// `m` is `len` divided by `s`, rounded up.
proof fn lemma_chunk_count(m: int, s: int, len: int)
    requires
        s > 0,
        len >= 0,
        m >= 0,
        len <= m * s,
        m * s < len + s,
    ensures
        m == (len + s - 1) / s,
{
    vstd::arithmetic::div_mod::lemma_fundamental_div_mod(len + s - 1, s);
    let q = (len + s - 1) / s;
    let r = (len + s - 1) % s;
    vstd::arithmetic::div_mod::lemma_mod_bound(len + s - 1, s);
    assert(m == q) by (nonlinear_arith)
        requires
            len + s - 1 == s * q + r,
            0 <= r < s,
            len <= m * s,
            m * s < len + s,
            s > 0,
    ;
}

} // verus!
