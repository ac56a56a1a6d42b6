//! Fixed-capacity circular buffer decoupling the host's variable block
//! size from the engine's fixed analysis window.
//!
//! Writes overwrite the oldest sample once the buffer wraps; the write
//! index advances modulo the capacity. A reader walks the whole buffer
//! starting at the current write position, so it yields the contents in
//! oldest-to-newest order.

use vstd::prelude::*;

use crate::fixed::SAT;

verus! {

/// A ring state: the stored samples and the write index, after one write.
pub open spec fn ring_write(data: Seq<i64>, index: int, v: i64) -> (Seq<i64>, int) {
    (data.update(index, v), (index + 1) % (data.len() as int))
}

/// The ring state after writing a whole sequence of samples in order.
pub open spec fn ring_write_seq(data: Seq<i64>, index: int, s: Seq<i64>) -> (Seq<i64>, int)
    decreases s.len(),
{
    if s.len() == 0 {
        (data, index)
    } else {
        let prev = ring_write_seq(data, index, s.drop_last());
        ring_write(prev.0, prev.1, s.last())
    }
}

/// The buffer contents in oldest-to-newest order: the whole buffer read
/// starting at the write index.
pub open spec fn ring_read(data: Seq<i64>, index: int) -> Seq<i64> {
    Seq::new(data.len(), |i: int| data[(index + i) % (data.len() as int)])
}

/// A sequence of zero samples.
pub open spec fn zero_seq(n: nat) -> Seq<i64> {
    Seq::new(n, |i: int| 0i64)
}

/// What a capacity-`c` ring must hold after the samples `s` went through
/// it: the last `c` samples, preceded by leftover zeros when fewer than
/// `c` were ever written.
pub open spec fn ring_expected(s: Seq<i64>, c: nat) -> Seq<i64> {
    if s.len() <= c {
        zero_seq((c - s.len()) as nat) + s
    } else {
        s.subrange(s.len() - c, s.len() as int)
    }
}

pub struct Ringbuffer {
    pub data: Vec<i64>,
    pub index: usize,
}

pub struct BufferReader<'a> {
    pub data: &'a Vec<i64>,
    pub starting_index: usize,
    pub index: usize,
}

impl Ringbuffer {
    pub open spec fn wf(self) -> bool {
        &&& 1 <= self.data.len() <= 1000000000
        &&& self.index < self.data.len()
        &&& forall|i: int| 0 <= i < self.data@.len() ==> -SAT <= #[trigger] self.data@[i] <= SAT
    }

    pub fn new(length: usize) -> (r: Self)
        requires
            1 <= length <= 1000000000,
        ensures
            r.data@ == zero_seq(length as nat),
            r.index == 0,
            r.wf(),
    {
        let mut data: Vec<i64> = Vec::new();
        let mut i: usize = 0;
        while i < length
            invariant
                i <= length,
                data@ == zero_seq(i as nat),
            decreases length - i,
        {
            data.push(0);
            proof {
                assert(data@ =~= zero_seq((i + 1) as nat));
            }
            i = i + 1;
        }
        Self { data, index: 0 }
    }

    /// Store one sample at the write index, then advance the index
    /// modulo the capacity.
    pub fn write(&mut self, value: i64)
        requires
            old(self).wf(),
            -SAT <= value <= SAT,
        ensures
            (final(self).data@, final(self).index as int) == ring_write(
                old(self).data@,
                old(self).index as int,
                value,
            ),
            final(self).data@.len() == old(self).data@.len(),
            final(self).wf(),
    {
        let len: usize = self.data.len();
        self.data.set(self.index, value);
        self.index = (self.index + 1) % len;
    }

    /// A reader positioned at the current write index: it yields the
    /// buffer's samples in oldest-to-newest order.
    pub fn get_reader(&self) -> (r: BufferReader<'_>)
        requires
            self.wf(),
        ensures
            r.data@ == self.data@,
            r.starting_index == self.index,
            r.index == 0,
            r.wf(),
    {
        BufferReader { data: &self.data, starting_index: self.index, index: 0 }
    }
}

impl<'a> BufferReader<'a> {
    pub open spec fn wf(self) -> bool {
        &&& 1 <= self.data.len() <= 1000000000
        &&& self.starting_index < self.data.len()
        &&& self.index <= self.data.len()
    }

    /// Yield the next sample in oldest-to-newest order, or `None` once
    /// the whole buffer has been read.
    pub fn next(&mut self) -> (r: Option<i64>)
        requires
            old(self).wf(),
        ensures
            final(self).data@ == old(self).data@,
            final(self).starting_index == old(self).starting_index,
            old(self).index >= old(self).data@.len() ==> r is None && final(self).index == old(
                self,
            ).index,
            old(self).index < old(self).data@.len() ==> r == Some(
                ring_read(old(self).data@, old(self).starting_index as int)[old(self).index as int],
            ) && final(self).index == old(self).index + 1,
            final(self).wf(),
    {
        if self.index >= self.data.len() {
            return None;
        }
        let len: usize = self.data.len();
        let buffer_index: usize = (self.index + self.starting_index) % len;
        let value: i64 = self.data[buffer_index];
        self.index = self.index + 1;
        proof {
            assert((self.starting_index + (self.index - 1)) % (len as int) == ((self.index - 1)
                + self.starting_index) % (len as int));
        }
        Some(value)
    }
}

/// One write turns the oldest-to-newest view `q` into `q` shifted by one
/// with the new sample appended.
proof fn lemma_ring_write_read_step(data: Seq<i64>, index: int, v: i64)
    requires
        data.len() >= 1,
        0 <= index < data.len(),
    ensures
        ring_read(ring_write(data, index, v).0, ring_write(data, index, v).1) == ring_read(
            data,
            index,
        ).subrange(1, data.len() as int).push(v),
{
    let n: int = data.len() as int;
    let w = ring_write(data, index, v);
    let lhs = ring_read(w.0, w.1);
    let rhs = ring_read(data, index).subrange(1, n).push(v);
    assert(w.1 == (index + 1) % n);
    assert forall|i: int| 0 <= i < n implies lhs[i] == rhs[i] by {
        vstd::arithmetic::div_mod::lemma_mod_bound(index + 1, n);
        let p: int = ((index + 1) % n + i) % n;
        vstd::arithmetic::div_mod::lemma_mod_bound((index + 1) % n + i, n);
        vstd::arithmetic::div_mod::lemma_mod_adds(index + 1, i, n);
        vstd::arithmetic::div_mod::lemma_mod_twice(index + 1 + i, n);
        assert(p == (index + 1 + i) % n) by {
            vstd::arithmetic::div_mod::lemma_add_mod_noop(index + 1, i, n);
            vstd::arithmetic::div_mod::lemma_small_mod(i as nat, n as nat);
        };
        if i < n - 1 {
            assert((index + 1 + i) % n == (index + (i + 1)) % n);
            if p == index {
                vstd::arithmetic::div_mod::lemma_mod_bound(index + (i + 1), n);
                vstd::arithmetic::div_mod::lemma_fundamental_div_mod(index + (i + 1), n);
                vstd::arithmetic::div_mod::lemma_fundamental_div_mod(index, n);
                vstd::arithmetic::div_mod::lemma_small_mod(index as nat, n as nat);
                assert((index + (i + 1)) - index == (i + 1));
                let q1: int = (index + (i + 1)) / n;
                assert(index + (i + 1) == n * q1 + index);
                assert(n * q1 == i + 1) by (nonlinear_arith)
                    requires
                        index + (i + 1) == n * q1 + index,
                ;
                assert(q1 == 1) by (nonlinear_arith)
                    requires
                        n * q1 == i + 1,
                        0 < i + 1 < n,
                        n >= 1,
                ;
                assert(false);
            }
            assert(lhs[i] == data[(index + (i + 1)) % n]);
            assert(rhs[i] == data[(index + (i + 1)) % n]);
        } else {
            assert(i == n - 1);
            assert((index + 1 + i) % n == index) by {
                vstd::arithmetic::div_mod::lemma_mod_add_multiples_vanish(index, n);
                vstd::arithmetic::div_mod::lemma_small_mod(index as nat, n as nat);
            };
            assert(lhs[i] == v);
            assert(rhs[i] == v);
        }
    };
    assert(lhs =~= rhs);
}

/// Writing a sequence keeps the capacity and the index range.
proof fn lemma_ring_write_seq_wf(data: Seq<i64>, index: int, s: Seq<i64>)
    requires
        data.len() >= 1,
        0 <= index < data.len(),
    ensures
        ring_write_seq(data, index, s).0.len() == data.len(),
        0 <= ring_write_seq(data, index, s).1 < data.len(),
    decreases s.len(),
{
    if s.len() == 0 {
    } else {
        lemma_ring_write_seq_wf(data, index, s.drop_last());
        let prev = ring_write_seq(data, index, s.drop_last());
        vstd::arithmetic::div_mod::lemma_mod_bound(prev.1 + 1, prev.0.len() as int);
    }
}

/// Order preservation: after any sequence of samples `s` has gone
/// through a fresh ring of capacity `c`, reading the whole buffer from
/// the write position yields the samples in oldest-to-newest order —
/// the last `c` of `s`, preceded by the untouched zeros when fewer than
/// `c` were written.
pub proof fn lemma_ring_preserves_order(c: nat, s: Seq<i64>)
    requires
        c >= 1,
    ensures
        ring_read(
            ring_write_seq(zero_seq(c), 0, s).0,
            ring_write_seq(zero_seq(c), 0, s).1,
        ) == ring_expected(s, c),
    decreases s.len(),
{
    if s.len() == 0 {
        let r = ring_read(zero_seq(c), 0);
        assert forall|i: int| 0 <= i < c implies r[i] == 0i64 by {
            vstd::arithmetic::div_mod::lemma_small_mod(i as nat, c);
        };
        assert(r =~= ring_expected(s, c));
    } else {
        lemma_ring_preserves_order(c, s.drop_last());
        lemma_ring_write_seq_wf(zero_seq(c), 0, s.drop_last());
        let prev = ring_write_seq(zero_seq(c), 0, s.drop_last());
        lemma_ring_write_read_step(prev.0, prev.1, s.last());
        let q = ring_expected(s.drop_last(), c);
        assert(ring_read(prev.0, prev.1) == q);
        assert(q.subrange(1, c as int).push(s.last()) =~= ring_expected(s, c));
    }
}

} // verus!
