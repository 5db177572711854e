//! A size-segregated free-list allocator coordinated with a stop-the-world
//! mark-sweep collection cycle.
//!
//! Heap memory is handed out in fixed-size blocks, each carved into
//! same-size cells that form an embedded free list; side-metadata bit
//! planes carry the mark and allocation bits that the allocator and the
//! tracer share.  The plan object owns the spaces and drives the
//! prepare/trace/release protocol of a collection cycle.

use vstd::prelude::*;

pub mod block;
pub mod free_list_allocator;
pub mod gc_work;
pub mod malloc_allocator;
pub mod marksweepspace;
pub mod mmtk;
pub mod options;
pub mod plan;
pub mod side_metadata;

verus! {

/// Addresses are opaque 64-bit machine words; zero is the reserved
/// sentinel meaning "absent".
pub type Address = u64;

/// Number of bytes in one machine word (pointer-sized).
pub const BYTES_IN_WORD: u64 = 8;

/// log2 of the number of bytes in one page.
pub const LOG_BYTES_IN_PAGE: u64 = 12;

/// Number of bytes in one page.
pub const BYTES_IN_PAGE: u64 = 4096;

/// log2 of the number of bytes in one block.
pub const LOG_BYTES_IN_BLOCK: u64 = 16;

/// Number of bytes in one block: the fixed-size extent a space hands out,
/// which the allocator carves into same-size cells.
pub const BYTES_IN_BLOCK: u64 = 65536;

/// Number of pages in one block.
pub const PAGES_IN_BLOCK: u64 = 16;

/// Bytes taken by the block trailer (`BlockData`: next, free, size).
pub const BLOCK_DATA_BYTES: u64 = 24;

/// Granularity of the side-metadata bit planes: one bit for every
/// possible object start, i.e. for every `MIN_OBJ_BYTES` of heap.
pub const MIN_OBJ_BYTES: u64 = 16;

} // verus!
