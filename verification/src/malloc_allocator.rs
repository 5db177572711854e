//! The raw-malloc-backed allocation front end: a peer strategy to the
//! free-list allocator, kept behind the same plan contracts.
//!
//! The actual memory comes from the C allocator, which this library does
//! not own; what belongs here is the allocator's own state — its thread,
//! its space binding, and the heap accounting that decides when the heap
//! is full and a collection must be requested before allocating further.

use vstd::prelude::*;

verus! {

/// Process-wide heap accounting for the malloc-backed policy: the heap
/// bound and the bytes handed out so far, built once and passed
/// explicitly instead of living in a global.
pub struct HeapState {
    /// The configured heap bound in bytes.
    pub heap_size: usize,
    /// Usable bytes handed out and not yet reclaimed.
    pub heap_used: usize,
}

/// Whether the accounted heap has reached its bound, so that allocation
/// must first request a collection.
pub fn heap_full(heap: &HeapState) -> (r: bool)
    ensures
        r == (heap.heap_used >= heap.heap_size),
{
    heap.heap_used >= heap.heap_size
}

/// The malloc-backed allocator's per-thread state.
pub struct MallocAllocator {
    /// Opaque identifier of the owning mutator thread.
    pub tls: u64,
    /// Identifier of the space this allocator is bound to, if any.
    pub space: Option<u64>,
}

impl MallocAllocator {
    /// Bind the allocator to a (possibly absent) space.
    pub fn rebind(&mut self, space: Option<u64>)
        ensures
            final(self).space == space,
            final(self).tls == old(self).tls,
    {
        self.space = space;
    }

    /// A fresh allocator for mutator thread `tls`, bound to `space`.
    pub fn new(tls: u64, space: Option<u64>) -> (r: MallocAllocator)
        ensures
            r.tls == tls,
            r.space == space,
    {
        MallocAllocator { tls, space }
    }

    /// Account for one allocation of `usable` usable bytes handed out by
    /// the backing allocator.
    pub fn record_allocation(heap: &mut HeapState, usable: usize)
        requires
            old(heap).heap_used + usable <= usize::MAX,
        ensures
            final(heap).heap_used == old(heap).heap_used + usable,
            final(heap).heap_size == old(heap).heap_size,
    {
        heap.heap_used = heap.heap_used + usable;
    }
}

} // verus!
