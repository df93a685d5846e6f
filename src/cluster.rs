//! The cluster handle and the orchestrating wrapper that owns the persistent
//! buffer pool and runs whole operations.

use vstd::prelude::*;
use vstd::string::StringSliceAdditionalSpecFns;
use crate::engine::{plan_len_at_fault, run_cores};
use crate::error::Error;
use crate::geometry::{is_pow2, is_power_of_two, round_count_spec, valid_cores, MAX_CORES};
use crate::keystream::{lemma_round_trip, xor_keystream, xor_range, Cipher, KEYSTREAM_LIMIT};
use crate::memory::{ClusterAllocator, L1Heap, L1_CAPACITY};
use crate::pipeline::{transfer_plan, Dma, SourceLocation};
use crate::pool::BufferPool;

verus! {

/// Round trip: running twice with the same cipher, key and initialisation
/// vector, both runs succeeding, gives the original stream back, whatever
/// the tier. `once` and `twice` are what the two successful runs leave.
pub proof fn lemma_run_twice_restores(c: Cipher, key: Seq<u8>, iv: Seq<u8>, p: Seq<u8>, once: Seq<u8>, twice: Seq<u8>)
    requires
        once == xor_keystream(c, key, iv, p, 0),
        twice == xor_keystream(c, key, iv, once, 0),
    ensures
        twice == p,
{
    lemma_round_trip(c, key, iv, p, 0);
}

/// Parallel and serial agree: what a successful run on the cluster leaves
/// (`parallel`) and what the serial path leaves (`serial`) on the same
/// stream are equal byte for byte, each byte combined with the keystream
/// byte at its own position, whatever the core count.
pub proof fn lemma_parallel_matches_serial(c: Cipher, key: Seq<u8>, iv: Seq<u8>, p: Seq<u8>, parallel: Seq<u8>, serial: Seq<u8>)
    requires
        parallel == xor_keystream(c, key, iv, p, 0),
        serial == xor_keystream(c, key, iv, p, 0),
    ensures
        parallel == serial,
        parallel.len() == p.len(),
        forall|i: int| 0 <= i < p.len() ==> #[trigger] parallel[i] == p[i] ^ c.keystream_byte(key, iv, i),
{
}

/// The core count that a build setting names: the offset of its first
/// byte from `'0'`, when that is a power of two. Only the first byte counts.
pub open spec fn cores_of(s: Seq<u8>) -> Option<usize> {
    if s.len() > 0 && 0x30 <= s[0] && is_pow2((s[0] - 0x30) as nat) {
        Some((s[0] - 0x30) as usize)
    } else {
        None
    }
}

/// Reads a core count from the first byte of `s`, as its offset from `'0'`;
/// `None` when `s` is empty, the byte lies below `'0'`, or the offset is not a
/// power of two.
pub fn parse_cores_u8(s: &str) -> (r: Option<usize>)
    ensures
        r == cores_of(s.spec_bytes()),
{
    let b = s.as_bytes();
    if b.len() == 0 {
        return None;
    }
    let d = b[0];
    if d < 0x30 {
        return None;
    }
    let n = (d - 0x30) as usize;
    if is_power_of_two(n) {
        Some(n)
    } else {
        None
    }
}

/// An opened cluster: its cores, its scratchpad allocator and its transfer
/// engine.
pub struct Cluster {
    pub cores: usize,
    pub l1: L1Heap,
    pub dma: Dma,
}

impl Cluster {
    pub open spec fn wf(&self) -> bool {
        valid_cores(self.cores as nat) && self.l1.wf()
    }

    /// Opens a cluster of `cores` cores whose transfers go through `dma`;
    /// fails with `ClusterUnavailable` unless `cores` is a power of two no
    /// larger than `MAX_CORES`.
    pub fn with_dma(cores: usize, dma: Dma) -> (r: Result<Cluster, Error>)
        ensures
            r is Err <==> !valid_cores(cores as nat),
            r is Err ==> r == Err::<Cluster, Error>(Error::ClusterUnavailable),
            r matches Ok(c) ==> c.wf() && c.cores == cores && c.dma == dma && c.l1.used == 0
                && c.l1.capacity == L1_CAPACITY,
    {
        if cores > MAX_CORES || !is_power_of_two(cores) {
            Err(Error::ClusterUnavailable)
        } else {
            Ok(Cluster { cores, l1: L1Heap::new(), dma })
        }
    }

    /// Opens a cluster of `cores` cores whose transfers all succeed; fails
    /// with `ClusterUnavailable` unless `cores` is a power of two no larger
    /// than `MAX_CORES`.
    pub fn new(cores: usize) -> (r: Result<Cluster, Error>)
        ensures
            r is Err <==> !valid_cores(cores as nat),
            r is Err ==> r == Err::<Cluster, Error>(Error::ClusterUnavailable),
            r matches Ok(c) ==> c.wf() && c.cores == cores && c.dma.fault is None && c.dma.log@.len() == 0
                && c.l1.used == 0 && c.l1.capacity == L1_CAPACITY,
    {
        Self::with_dma(cores, Dma::new())
    }

    /// Number of cores.
    pub fn cores(&self) -> (n: usize)
        ensures
            n == self.cores,
    {
        self.cores
    }

    /// A handle onto the cluster's scratchpad heap.
    pub fn l1_allocator(&self) -> (a: ClusterAllocator) {
        ClusterAllocator::new()
    }

    /// The transfer engine.
    pub fn dma(&self) -> (d: &Dma)
        ensures
            *d == self.dma,
    {
        &self.dma
    }
}

/// Encrypts and decrypts byte streams on the cluster, reusing one buffer
/// pool in scratchpad memory across operations.
pub struct PulpWrapper {
    pub cluster: Cluster,
    pub pool: BufferPool,
}

impl PulpWrapper {
    pub open spec fn wf(&self) -> bool {
        &&& self.cluster.wf()
        &&& self.pool.wf()
        &&& self.pool.cores == self.cluster.cores
        &&& self.pool.data@.len() <= self.cluster.l1.used
    }

    /// Bytes handled per round: one half of the pool.
    pub open spec fn work_len(&self) -> int {
        self.pool.half_len_spec()
    }

    /// Takes `cluster` and reserves a pool of `buf_len` bytes in its
    /// scratchpad; fails with `OutOfMemory` when the scratchpad cannot hold
    /// it.
    pub fn new(cluster: Cluster, buf_len: usize) -> (r: Result<PulpWrapper, Error>)
        requires
            cluster.wf(),
            buf_len > 0,
            buf_len as int % (2 * cluster.cores as int) == 0,
        ensures
            r is Err <==> buf_len > cluster.l1.available(),
            r is Err ==> r == Err::<PulpWrapper, Error>(Error::OutOfMemory),
            r matches Ok(w) ==> w.wf() && w.cluster.cores == cluster.cores && w.cluster.dma == cluster.dma
                && w.pool.data@.len() == buf_len && w.cluster.l1.capacity == cluster.l1.capacity
                && w.cluster.l1.used == cluster.l1.used + buf_len,
    {
        let mut cluster = cluster;
        proof {
            assert(cluster.cores <= MAX_CORES);
        }
        match BufferPool::allocate(&mut cluster.l1, buf_len, cluster.cores) {
            Ok(pool) => Ok(PulpWrapper { cluster, pool }),
            Err(e) => Err(e),
        }
    }

    /// Bytes handled per round.
    pub fn full_work_buf_len(&self) -> (n: usize)
        requires
            self.wf(),
        ensures
            n == self.work_len(),
    {
        self.pool.full_work_buf_len()
    }

    /// Encrypts or decrypts `source`, which lives in `loc`, in place with
    /// `cipher`, `key` and `iv`, on all cores of the cluster, reusing the
    /// pool: the scratchpad heap is left as it was.
    ///
    /// On success every byte `i` is combined with keystream byte `i`, exactly
    /// as the serial path does, and the transfers issued are those of the
    /// plan: per round one in and one out, each moving that round's bytes at
    /// that round's offset. An empty source needs no transfer at all.
    /// When a transfer of round `k` fails, the result is
    /// `TransferFailure { round: k }`: the rounds before `k` are done and
    /// written back, nothing from round `k` on was changed, and nothing was
    /// issued after the failed transfer.
    pub fn run(&mut self, source: &mut Vec<u8>, key: &Vec<u8>, iv: &Vec<u8>, loc: SourceLocation, cipher: Cipher) -> (r: Result<(), Error>)
        requires
            old(self).wf(),
            cipher.valid_key_iv(key@, iv@),
            old(source)@.len() <= KEYSTREAM_LIMIT,
            !(loc is L1),
        ensures
            final(self).wf(),
            final(self).cluster.cores == old(self).cluster.cores,
            final(self).cluster.l1 == old(self).cluster.l1,
            final(self).pool.data@.len() == old(self).pool.data@.len(),
            final(self).cluster.dma.fault == old(self).cluster.dma.fault,
            old(source)@.len() == 0 ==> r is Ok && final(self).cluster.dma.log@ == old(self).cluster.dma.log@
                && final(source)@ == old(source)@,
            r is Err <==> (old(self).cluster.dma.fault matches Some(f)
                && f.round < round_count_spec(old(source)@.len() as int, old(self).work_len())),
            r matches Err(e) ==> (old(self).cluster.dma.fault matches Some(f)
                && e == Error::TransferFailure { round: f.round }
                && final(source)@ == xor_range(cipher, key@, iv@, old(source)@, 0, f.round * old(self).work_len(), 0)
                && final(self).cluster.dma.log@ == old(self).cluster.dma.log@ + transfer_plan(old(source)@.len() as int,
                    old(self).work_len(), plan_len_at_fault(f.dir, f.round as int))),
            r is Ok ==> final(source)@ == xor_keystream(cipher, key@, iv@, old(source)@, 0)
                && final(self).cluster.dma.log@ == old(self).cluster.dma.log@ + transfer_plan(old(source)@.len() as int,
                    old(self).work_len(), 2 * round_count_spec(old(source)@.len() as int, old(self).work_len())),
    {
        run_cores(&mut self.pool, source, &mut self.cluster.dma, loc, cipher, key, iv)
    }

    /// Gives the pool back to the cluster's scratchpad and hands the cluster
    /// back.
    pub fn close(self) -> (c: Cluster)
        requires
            self.wf(),
        ensures
            c.cores == self.cluster.cores,
            c.dma == self.cluster.dma,
            c.l1.used == self.cluster.l1.used - self.pool.data@.len(),
    {
        let PulpWrapper { cluster, pool } = self;
        let mut cluster = cluster;
        pool.release(&mut cluster.l1);
        cluster
    }
}

} // verus!
