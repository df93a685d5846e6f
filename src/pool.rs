//! The double buffer in scratchpad memory: two equal halves, each cut into
//! one equal slice per core.

use vstd::prelude::*;
use crate::error::Error;
use crate::geometry::{core_lo_spec, core_hi_spec, lemma_core_ranges, lemma_core_ranges_partition, owned, MAX_CORES};
use vstd::arithmetic::div_mod::{lemma_div_multiples_vanish, lemma_fundamental_div_mod, lemma_mod_multiples_basic};
use crate::memory::{ClusterAllocator, L1Heap, CLUSTER_L1_ALIGN, L1_CAPACITY};

verus! {

/// A scratchpad region of fixed length, split in two halves.
pub struct BufferPool {
    pub data: Vec<u8>,
    pub cores: usize,
}

impl BufferPool {
    /// Length of one half: the bytes that one round handles.
    pub open spec fn half_len_spec(&self) -> int {
        self.data@.len() as int / 2
    }

    /// Length of one core's slice of a half.
    pub open spec fn slice_len_spec(&self) -> int {
        self.half_len_spec() / self.cores as int
    }

    /// Byte range of core `c`'s slice of half `which`.
    pub open spec fn core_slice_spec(&self, which: int, c: int) -> (int, int) {
        (which * self.half_len_spec() + core_lo_spec(self.half_len_spec(), self.cores as int, c),
         which * self.half_len_spec() + core_hi_spec(self.half_len_spec(), self.cores as int, c))
    }

    pub open spec fn wf(&self) -> bool {
        &&& 0 < self.cores <= MAX_CORES
        &&& self.data@.len() > 0
        &&& self.data@.len() <= L1_CAPACITY
        &&& self.data@.len() as int % (2 * self.cores as int) == 0
    }

    /// Reserves `total_len` bytes of scratchpad for `cores` cores; fails with
    /// `OutOfMemory` when the scratchpad cannot hold them.
    pub fn allocate(heap: &mut L1Heap, total_len: usize, cores: usize) -> (r: Result<BufferPool, Error>)
        requires
            old(heap).wf(),
            0 < cores <= MAX_CORES,
            total_len > 0,
            total_len as int % (2 * cores as int) == 0,
        ensures
            final(heap).wf(),
            final(heap).capacity == old(heap).capacity,
            r is Err <==> total_len > old(heap).available(),
            r is Err ==> r == Err::<BufferPool, Error>(Error::OutOfMemory),
            r matches Ok(p) ==> p.wf() && p.cores == cores && p.data@.len() == total_len
                && final(heap).used == old(heap).used + total_len,
    {
        match ClusterAllocator::new().allocate(heap, total_len, CLUSTER_L1_ALIGN) {
            Ok(data) => {
                assert(total_len <= L1_CAPACITY);
                Ok(BufferPool { data, cores })
            },
            Err(e) => Err(e),
        }
    }

    /// Gives the pool's memory back.
    pub fn release(self, heap: &mut L1Heap)
        requires
            old(heap).wf(),
            self.data@.len() <= old(heap).used,
        ensures
            final(heap).wf(),
            final(heap).capacity == old(heap).capacity,
            final(heap).used == old(heap).used - self.data@.len(),
    {
        ClusterAllocator::new().deallocate(heap, self.data);
    }

    /// Length of one half: the round length, `FULL_WORK_BUF_LEN`.
    pub fn full_work_buf_len(&self) -> (n: usize)
        requires
            self.wf(),
        ensures
            n == self.half_len_spec(),
            n > 0,
            n as int % self.cores as int == 0,
    {
        proof {
            self.lemma_geometry();
        }
        self.data.len() / 2
    }

    /// Byte range `(start, end)` of half `which`.
    pub fn half(&self, which: usize) -> (r: (usize, usize))
        requires
            self.wf(),
            which < 2,
        ensures
            r.0 == which * self.half_len_spec(),
            r.1 == r.0 + self.half_len_spec(),
            r.1 <= self.data@.len(),
    {
        proof {
            self.lemma_geometry();
        }
        let h = self.data.len() / 2;
        if which == 0 {
            (0, h)
        } else {
            (h, h + h)
        }
    }

    /// Byte range `(start, end)` of core `core_id`'s slice of half `which`.
    pub fn core_slice(&self, which: usize, core_id: usize) -> (r: (usize, usize))
        requires
            self.wf(),
            which < 2,
            core_id < self.cores,
        ensures
            r.0 == self.core_slice_spec(which as int, core_id as int).0,
            r.1 == self.core_slice_spec(which as int, core_id as int).1,
            r.1 == r.0 + self.slice_len_spec(),
            which * self.half_len_spec() <= r.0 <= r.1 <= (which + 1) * self.half_len_spec(),
    {
        proof {
            self.lemma_geometry();
            self.lemma_slice(core_id as int);
            self.lemma_slice(core_id as int + 1);
            lemma_core_ranges(self.half_len_spec(), self.cores as int);
        }
        let h = self.data.len() / 2;
        let s = h / self.cores;
        proof {
            assert(core_id * s <= self.cores * s) by (nonlinear_arith)
                requires core_id < self.cores, s >= 0;
            assert((core_id + 1) * s <= self.cores * s) by (nonlinear_arith)
                requires core_id + 1 <= self.cores, s >= 0;
            assert((which + 1) * h == which * h + h) by (nonlinear_arith);
            assert((core_id + 1) * s == core_id * s + s) by (nonlinear_arith);
        }
        (which * h + core_id * s, which * h + core_id * s + s)
    }

    /// The two halves are equal and split evenly across the cores.
    pub proof fn lemma_geometry(&self)
        requires
            self.wf(),
        ensures
            self.data@.len() == 2 * self.half_len_spec(),
            self.half_len_spec() > 0,
            self.half_len_spec() % self.cores as int == 0,
            self.half_len_spec() == self.cores * self.slice_len_spec(),
    {
        let l = self.data@.len() as int;
        let c = self.cores as int;
        let q = l / (2 * c);
        lemma_fundamental_div_mod(l, 2 * c);
        assert(l == 2 * (c * q)) by (nonlinear_arith)
            requires l == (2 * c) * q;
        lemma_div_multiples_vanish(c * q, 2);
        lemma_div_multiples_vanish(q, c);
        lemma_mod_multiples_basic(q, c);
        assert(q * c == c * q) by (nonlinear_arith);
    }

    /// Disjoint partition of a half: core `c`'s slice of half `which` is the
    /// `c`-th run of `slice_len` bytes in it; slices of different cores never
    /// overlap; and every byte of the half lies in some core's slice.
    pub proof fn lemma_core_slices_partition(&self, which: int)
        requires
            self.wf(),
            0 <= which < 2,
        ensures
            forall|c: int| 0 <= c < self.cores ==> #[trigger] self.core_slice_spec(which, c)
                == (which * self.half_len_spec() + c * self.slice_len_spec(),
                    which * self.half_len_spec() + c * self.slice_len_spec() + self.slice_len_spec()),
            forall|c1: int, c2: int| 0 <= c1 < self.cores && 0 <= c2 < self.cores && c1 != c2
                ==> self.core_slice_spec(which, c1).1 <= self.core_slice_spec(which, c2).0
                    || self.core_slice_spec(which, c2).1 <= self.core_slice_spec(which, c1).0,
            forall|j: int| which * self.half_len_spec() <= j < (which + 1) * self.half_len_spec()
                ==> #[trigger] owned(self.half_len_spec(), self.cores as int, j - which * self.half_len_spec()),
    {
        let h = self.half_len_spec();
        let s = self.slice_len_spec();
        self.lemma_geometry();
        lemma_core_ranges_partition(h, self.cores as int);
        assert forall|c: int| 0 <= c < self.cores implies #[trigger] self.core_slice_spec(which, c)
            == (which * h + c * s, which * h + c * s + s) by {
            self.lemma_slice(c);
            self.lemma_slice(c + 1);
            assert((c + 1) * s == c * s + s) by (nonlinear_arith);
        }
        assert forall|j: int| which * h <= j < (which + 1) * h implies #[trigger] owned(h, self.cores as int, j - which * h) by {
            assert((which + 1) * h == which * h + h) by (nonlinear_arith);
        }
    }

    /// Core `c`'s slice starts `c` slice lengths into the half.
    proof fn lemma_slice(&self, c: int)
        requires
            self.wf(),
            0 <= c <= self.cores,
        ensures
            core_lo_spec(self.half_len_spec(), self.cores as int, c) == c * self.slice_len_spec(),
    {
        self.lemma_geometry();
        let h = self.half_len_spec();
        let n = self.cores as int;
        let s = self.slice_len_spec();
        assert(c * s <= n * s) by (nonlinear_arith)
            requires c <= n, s >= 0;
    }
}

} // verus!
