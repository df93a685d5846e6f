//! Allocators of the cluster's scratchpad (L1) and of on-chip shared (L2)
//! memory.

use vstd::prelude::*;
use crate::error::Error;

verus! {

/// Bytes of cluster scratchpad memory.
pub const L1_CAPACITY: usize = 65536;

/// Largest alignment the scratchpad allocator honours.
pub const CLUSTER_L1_ALIGN: usize = 4;

/// Largest alignment the on-chip shared memory allocator honours.
pub const L2_ALIGN: usize = 4;

/// Largest size the on-chip shared memory allocator accepts: sizes are
/// handed on as a C `int`.
pub const L2_MAX_SIZE: usize = 0x7fff_ffff;

/// A buffer of `n` zero bytes.
pub fn zeroed(n: usize) -> (v: Vec<u8>)
    ensures
        v@ == Seq::new(n as nat, |i: int| 0u8),
{
    let mut v: Vec<u8> = Vec::new();
    let mut i: usize = 0;
    while i < n
        invariant
            i <= n,
            v@ == Seq::new(i as nat, |k: int| 0u8),
        decreases n - i,
    {
        v.push(0u8);
        i = i + 1;
        assert(v@ =~= Seq::new(i as nat, |k: int| 0u8));
    }
    v
}

/// Allocator of on-chip shared memory.
pub struct L2Allocator;

impl L2Allocator {
    /// Reserves `size` zeroed bytes aligned to `align`; fails when the
    /// alignment is larger than the memory honours or the size does not fit
    /// a C `int`.
    pub fn allocate(&self, size: usize, align: usize) -> (r: Result<Vec<u8>, Error>)
        ensures
            r is Err <==> (align > L2_ALIGN || size > L2_MAX_SIZE),
            r is Err ==> r == Err::<Vec<u8>, Error>(Error::OutOfMemory),
            r matches Ok(v) ==> v@ == Seq::new(size as nat, |i: int| 0u8),
    {
        if align > L2_ALIGN || size > L2_MAX_SIZE {
            Err(Error::OutOfMemory)
        } else {
            Ok(zeroed(size))
        }
    }
}

/// The process-wide default allocator. Where allocation belongs is never
/// clear from that context, so it hands out nothing.
pub struct GlobalAllocator;

impl GlobalAllocator {
    /// Always refuses.
    pub fn allocate(&self, size: usize, align: usize) -> (r: Option<Vec<u8>>)
        ensures
            r is None,
    {
        None
    }
}

/// The cluster's scratchpad heap: its size and the bytes handed out.
pub struct L1Heap {
    pub capacity: usize,
    pub used: usize,
}

impl L1Heap {
    pub open spec fn wf(&self) -> bool {
        self.used <= self.capacity <= L1_CAPACITY
    }

    /// Bytes still free.
    pub open spec fn available(&self) -> int {
        self.capacity - self.used
    }

    /// The whole scratchpad, nothing handed out yet.
    pub fn new() -> (h: L1Heap)
        ensures
            h.wf(),
            h.capacity == L1_CAPACITY,
            h.used == 0,
    {
        L1Heap { capacity: L1_CAPACITY, used: 0 }
    }
}

/// Allocator of the cluster's scratchpad memory: a handle with no state of
/// its own onto the one scratchpad heap, so any two are interchangeable.
pub struct ClusterAllocator;

impl ClusterAllocator {
    /// A handle onto the scratchpad heap.
    pub fn new() -> (a: ClusterAllocator) {
        ClusterAllocator
    }

    /// Reserves `size` zeroed bytes of `heap` aligned to `align`; fails with
    /// `OutOfMemory` when the alignment is larger than the scratchpad
    /// honours or fewer than `size` bytes are free.
    pub fn allocate(&self, heap: &mut L1Heap, size: usize, align: usize) -> (r: Result<Vec<u8>, Error>)
        requires
            old(heap).wf(),
        ensures
            final(heap).wf(),
            final(heap).capacity == old(heap).capacity,
            r is Err <==> (align > CLUSTER_L1_ALIGN || size > old(heap).available()),
            r is Err ==> r == Err::<Vec<u8>, Error>(Error::OutOfMemory) && final(heap).used == old(heap).used,
            r matches Ok(v) ==> v@ == Seq::new(size as nat, |i: int| 0u8) && final(heap).used == old(heap).used + size,
    {
        if align > CLUSTER_L1_ALIGN || size > heap.capacity - heap.used {
            Err(Error::OutOfMemory)
        } else {
            heap.used = heap.used + size;
            Ok(zeroed(size))
        }
    }

    /// Gives back to `heap` a buffer handed out from it.
    pub fn deallocate(&self, heap: &mut L1Heap, buf: Vec<u8>)
        requires
            old(heap).wf(),
            buf@.len() <= old(heap).used,
        ensures
            final(heap).wf(),
            final(heap).capacity == old(heap).capacity,
            final(heap).used == old(heap).used - buf@.len(),
    {
        heap.used = heap.used - buf.len();
    }
}

} // verus!
