//! The process-wide root handle: the selected plan and the scheduler it
//! drives, constructed once at process start and passed explicitly to
//! every operation rather than living in an implicit global.

use vstd::prelude::*;
use crate::options::{Options, UnsafeOptionsWrapper};
use crate::plan::{FreeListMarkSweep, GcStatus, MMTkScheduler};

verus! {

/// Base of the reserved heap range an instance is created over.
pub const HEAP_START: u64 = 0x10000000;

/// Size of the reserved heap range in bytes.
pub const HEAP_EXTENT: u64 = 0x10000000;

/// An instance of the memory-management substrate.
pub struct MMTK {
    /// The selected plan.
    pub plan: FreeListMarkSweep,
    /// The scheduler the plan enqueues collection work into.
    pub scheduler: MMTkScheduler,
}

impl MMTK {
    /// A fresh instance over the default heap range, with default
    /// options, an empty mark-sweep space, and no collection running.
    pub fn new() -> (r: MMTK)
        ensures
            r.plan.ms_space.wf(),
            r.plan.ms_space.blocks@.len() == 0,
            r.plan.ms_space.spec_allocated() =~= Set::<int>::empty(),
            r.plan.base.gc_status == GcStatus::NotInGC,
            r.scheduler.finalizer is None,
            r.scheduler.unconstrained@ =~= Seq::<crate::plan::WorkItem>::empty(),
    {
        let options = UnsafeOptionsWrapper::new(Options::default());
        let plan = FreeListMarkSweep::new(HEAP_START, HEAP_EXTENT, options);
        MMTK { plan, scheduler: MMTkScheduler::new() }
    }
}

} // verus!
