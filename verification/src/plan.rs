//! The process-wide collection policy: the plan owns the spaces, routes
//! allocation, and drives the prepare/trace/release protocol of a
//! stop-the-world mark-sweep cycle.
//!
//! The collection state machine runs `NotInGC → GcPrepare → GcProper →
//! NotInGC`.  Scheduling a collection enqueues, in strict stage order, a
//! stop-mutators item, a prepare item, and a release item, and installs
//! the end-of-cycle finalizer; the parallel trace closure between prepare
//! and release is seeded by root scanning and executed by the external
//! work-stealing scheduler, which this module models as ordered work
//! buckets.

use vstd::prelude::*;
use crate::Address;
use crate::marksweepspace::{same_block_layout, MarkSweepSpace};
use crate::options::UnsafeOptionsWrapper;
use crate::side_metadata::{
    metadata_address_range_size, spec_all_disjoint, verify_side_metadata_sanity, SideMetadataSpec,
};

verus! {

/// Where the process stands in the collection cycle.
#[derive(Copy, Clone, Debug, PartialEq, Eq, Structural)]
pub enum GcStatus {
    NotInGC,
    GcPrepare,
    GcProper,
}

/// The ordered stages work items are enqueued into; no item of a later
/// stage begins before every item of the earlier stages has completed.
#[derive(Copy, Clone, Debug, PartialEq, Eq, Structural)]
pub enum WorkBucketStage {
    Unconstrained,
    Prepare,
    Release,
}

/// The work items of one collection cycle.
#[derive(Copy, Clone, Debug, PartialEq, Eq, Structural)]
pub enum WorkItem {
    StopMutators,
    Prepare,
    Release,
    EndOfGC,
}

/// The external work-stealing scheduler, seen as ordered stage buckets
/// plus a finalizer that runs after the last stage drains.
pub struct MMTkScheduler {
    /// Items that run before the world is fully stopped.
    pub unconstrained: Vec<WorkItem>,
    /// Items of the prepare stage.
    pub prepare: Vec<WorkItem>,
    /// Items of the release stage.
    pub release: Vec<WorkItem>,
    /// The end-of-cycle notification.
    pub finalizer: Option<WorkItem>,
}

impl MMTkScheduler {
    /// A scheduler with empty stages and no finalizer installed.
    pub fn new() -> (r: MMTkScheduler)
        ensures
            r.unconstrained@ =~= Seq::<WorkItem>::empty(),
            r.prepare@ =~= Seq::<WorkItem>::empty(),
            r.release@ =~= Seq::<WorkItem>::empty(),
            r.finalizer is None,
    {
        MMTkScheduler {
            unconstrained: Vec::new(),
            prepare: Vec::new(),
            release: Vec::new(),
            finalizer: None,
        }
    }

    /// Enqueue `item` into stage `stage`.
    pub fn add(&mut self, stage: WorkBucketStage, item: WorkItem)
        ensures
            stage == WorkBucketStage::Unconstrained ==> final(self).unconstrained@ == old(self).unconstrained@.push(item) && final(self).prepare@ == old(self).prepare@ && final(self).release@ == old(self).release@,
            stage == WorkBucketStage::Prepare ==> final(self).prepare@ == old(self).prepare@.push(item) && final(self).unconstrained@ == old(self).unconstrained@
                && final(self).release@ == old(self).release@,
            stage == WorkBucketStage::Release ==> final(self).release@ == old(self).release@.push(item) && final(self).unconstrained@ == old(self).unconstrained@
                && final(self).prepare@ == old(self).prepare@,
            final(self).finalizer == old(self).finalizer,
    {
        match stage {
            WorkBucketStage::Unconstrained => self.unconstrained.push(item),
            WorkBucketStage::Prepare => self.prepare.push(item),
            WorkBucketStage::Release => self.release.push(item),
        }
    }

    /// Install the end-of-cycle finalizer.
    pub fn set_finalizer(&mut self, f: Option<WorkItem>)
        ensures
            final(self).finalizer == f,
            final(self).unconstrained@ == old(self).unconstrained@,
            final(self).prepare@ == old(self).prepare@,
            final(self).release@ == old(self).release@,
    {
        self.finalizer = f;
    }
}

/// What a plan promises the runtime about its behaviour.
#[derive(Copy, Clone, Debug, PartialEq, Eq, Structural)]
pub struct PlanConstraints {
    /// Whether the plan ever moves objects.
    pub moves_objects: bool,
    /// Header bits the plan asks the runtime to reserve per object.
    pub gc_header_bits: usize,
    /// Header words the plan asks the runtime to reserve per object.
    pub gc_header_words: usize,
}

/// The kinds of allocation requests the runtime can make.
#[derive(Copy, Clone, Debug, PartialEq, Eq, Structural)]
pub enum AllocationSemantics {
    Normal,
    Immortal,
    Los,
}

/// Which allocator instance serves a request.
#[derive(Copy, Clone, Debug, PartialEq, Eq, Structural)]
pub enum AllocatorSelector {
    FreeList(u8),
    BumpPointer(u8),
    Malloc(u8),
}

/// The routing table from allocation semantics to allocator: the one
/// seam where the simpler peer plans plug in.
#[derive(Copy, Clone, Debug, PartialEq, Eq, Structural)]
pub struct AllocatorMapping {
    /// Serves ordinary small-object requests.
    pub normal: AllocatorSelector,
    /// Serves immortal-space requests.
    pub immortal: AllocatorSelector,
    /// Serves large-object requests.
    pub los: AllocatorSelector,
}

impl AllocatorMapping {
    /// The allocator selected for one request kind.
    pub fn get(&self, semantics: AllocationSemantics) -> (r: AllocatorSelector)
        ensures
            semantics == AllocationSemantics::Normal ==> r == self.normal,
            semantics == AllocationSemantics::Immortal ==> r == self.immortal,
            semantics == AllocationSemantics::Los ==> r == self.los,
    {
        match semantics {
            AllocationSemantics::Normal => self.normal,
            AllocationSemantics::Immortal => self.immortal,
            AllocationSemantics::Los => self.los,
        }
    }
}

/// The bump-allocated immortal space: objects in it are never reclaimed;
/// a cycle only resets its mark state.
pub struct ImmortalSpace {
    /// The mark-state epoch, flipped each cycle.
    pub mark_state: bool,
    /// Pages reserved by this space.
    pub reserved: u64,
    /// Whether the space's range has been registered.
    pub initialized: bool,
}

impl ImmortalSpace {
    /// Pages at most a space of this model reserves.
    pub open spec fn wf(&self) -> bool {
        self.reserved <= 0x100000
    }

    /// A fresh immortal space with nothing reserved.
    pub fn new() -> (r: ImmortalSpace)
        ensures
            r.wf(),
            !r.mark_state,
            r.reserved == 0,
            !r.initialized,
    {
        ImmortalSpace { mark_state: false, reserved: 0, initialized: false }
    }

    /// Register the space's reserved range; idempotent.
    pub fn init(&mut self)
        ensures
            *final(self) == (ImmortalSpace { initialized: true, ..*old(self) }),
    {
        self.initialized = true;
    }

    /// Reset the mark state for a fresh mark phase.
    pub fn prepare(&mut self)
        ensures
            final(self).mark_state == !old(self).mark_state,
            final(self).reserved == old(self).reserved,
            final(self).initialized == old(self).initialized,
    {
        self.mark_state = !self.mark_state;
    }

    /// Pages currently reserved.
    pub fn reserved_pages(&self) -> (r: u64)
        ensures
            r == self.reserved,
    {
        self.reserved
    }
}

/// Global plan state shared by every concrete plan: the collection
/// status, the user request flag, the configured heap bound, and the
/// frozen option set.
pub struct BasePlan {
    /// Where the process stands in the collection cycle.
    pub gc_status: GcStatus,
    /// Whether the user explicitly requested a collection.
    pub user_triggered_collection: bool,
    /// The configured heap bound in bytes.
    pub heap_size: u64,
    /// The frozen option set.
    pub options: UnsafeOptionsWrapper,
}

impl BasePlan {
    /// Move the collection state machine: `NotInGC` to `GcPrepare` when a
    /// cycle is scheduled, `GcPrepare` to `GcProper` when tracing starts,
    /// and back to `NotInGC` when the end-of-cycle finalizer runs.
    pub fn set_gc_status(&mut self, s: GcStatus)
        ensures
            final(self).gc_status == s,
            final(self).user_triggered_collection == old(self).user_triggered_collection,
            final(self).heap_size == old(self).heap_size,
            final(self).options == old(self).options,
    {
        self.gc_status = s;
    }

    /// Raise the user's explicit collection request; the plan consults it
    /// before starting a new cycle.
    pub fn request_collection(&mut self)
        ensures
            final(self).user_triggered_collection,
            final(self).gc_status == old(self).gc_status,
            final(self).heap_size == old(self).heap_size,
            final(self).options == old(self).options,
    {
        self.user_triggered_collection = true;
    }
}

/// The mark-sweep plan: a mark-sweep space served by the free-list
/// allocator, an immortal space for permanent objects, and the shared
/// base state.
pub struct FreeListMarkSweep {
    /// The shared base state.
    pub base: BasePlan,
    /// The mark-sweep space.
    pub ms_space: MarkSweepSpace,
    /// The immortal space.
    pub im_space: ImmortalSpace,
}

impl FreeListMarkSweep {
    /// The six local side-metadata planes this plan declares, laid out at
    /// consecutive offsets — each plane starts where the previous one's
    /// range ends — so no two ever overlap.
    pub open spec fn spec_local_specs() -> Seq<SideMetadataSpec> {
        seq![
            SideMetadataSpec { is_global: false, offset: 0, log_num_of_bits: 6, log_min_obj_size: 16 },
            SideMetadataSpec { is_global: false, offset: 17179869184, log_num_of_bits: 6, log_min_obj_size: 16 },
            SideMetadataSpec { is_global: false, offset: 34359738368, log_num_of_bits: 6, log_min_obj_size: 16 },
            SideMetadataSpec { is_global: false, offset: 51539607552, log_num_of_bits: 6, log_min_obj_size: 16 },
            SideMetadataSpec { is_global: false, offset: 68719476736, log_num_of_bits: 6, log_min_obj_size: 16 },
            SideMetadataSpec { is_global: false, offset: 85899345920, log_num_of_bits: 6, log_min_obj_size: 16 },
        ]
    }

    /// Create the plan over the reserved range `[heap_start, heap_start +
    /// heap_extent)`: lay out the local side-metadata planes at
    /// consecutive offsets, validate that no two overlap — an overlap
    /// would be fatal at startup, and is here proved impossible — and
    /// build the two spaces empty.
    pub fn new(heap_start: Address, heap_extent: u64, options: UnsafeOptionsWrapper) -> (r:
        FreeListMarkSweep)
        requires
            heap_start % 4096 == 0,
            4096 <= heap_start,
            heap_start + heap_extent <= u64::MAX,
            heap_extent % 4096 == 0,
            heap_extent <= 0x40000000,
        ensures
            r.ms_space.wf(),
            r.ms_space.start == heap_start,
            r.ms_space.extent == heap_extent,
            r.ms_space.cursor == heap_start,
            r.ms_space.blocks@.len() == 0,
            r.ms_space.spec_allocated() =~= Set::<int>::empty(),
            r.ms_space.local_specs@ =~= Self::spec_local_specs(),
            spec_all_disjoint(r.ms_space.local_specs@),
            r.im_space.wf(),
            r.im_space.reserved == 0,
            r.base.gc_status == GcStatus::NotInGC,
            !r.base.user_triggered_collection,
            r.base.options == options,
    {
        let side_metadata_next = SideMetadataSpec {
            is_global: false,
            offset: 0,
            log_num_of_bits: 6,
            log_min_obj_size: 16,
        };
        let unit = metadata_address_range_size(&side_metadata_next);
        proof {
            assert(unit == 17179869184) by {
                vstd::arithmetic::power2::lemma2_to64_rest();
            }
        }
        let side_metadata_free = SideMetadataSpec {
            is_global: false,
            offset: unit,
            log_num_of_bits: 6,
            log_min_obj_size: 16,
        };
        let side_metadata_size = SideMetadataSpec {
            is_global: false,
            offset: 2 * unit,
            log_num_of_bits: 6,
            log_min_obj_size: 16,
        };
        let side_metadata_local_free = SideMetadataSpec {
            is_global: false,
            offset: 3 * unit,
            log_num_of_bits: 6,
            log_min_obj_size: 16,
        };
        let side_metadata_thread_free = SideMetadataSpec {
            is_global: false,
            offset: 4 * unit,
            log_num_of_bits: 6,
            log_min_obj_size: 16,
        };
        let side_metadata_tls = SideMetadataSpec {
            is_global: false,
            offset: 5 * unit,
            log_num_of_bits: 6,
            log_min_obj_size: 16,
        };
        let mut local_specs: Vec<SideMetadataSpec> = Vec::new();
        local_specs.push(side_metadata_next);
        local_specs.push(side_metadata_free);
        local_specs.push(side_metadata_size);
        local_specs.push(side_metadata_local_free);
        local_specs.push(side_metadata_thread_free);
        local_specs.push(side_metadata_tls);
        let sane = verify_side_metadata_sanity(&local_specs);
        proof {
            assert forall|i: int, j: int|
                0 <= i < local_specs@.len() && 0 <= j < local_specs@.len() && i != j implies
                crate::side_metadata::spec_disjoint(
                #[trigger] local_specs@[i],
                #[trigger] local_specs@[j],
            ) by {}
            assert(sane);
            assert(local_specs@ =~= Self::spec_local_specs());
        }
        let ms_space = MarkSweepSpace::new("MSspace", heap_start, heap_extent, local_specs);
        let im_space = ImmortalSpace::new();
        FreeListMarkSweep {
            base: BasePlan {
                gc_status: GcStatus::NotInGC,
                user_triggered_collection: false,
                heap_size: heap_extent,
                options,
            },
            ms_space,
            im_space,
        }
    }

    /// What this plan promises the runtime: it never moves objects and
    /// claims no header bits.
    pub fn constraints(&self) -> (r: PlanConstraints)
        ensures
            r == (PlanConstraints { moves_objects: false, gc_header_bits: 0, gc_header_words: 0 }),
    {
        PlanConstraints { moves_objects: false, gc_header_bits: 0, gc_header_words: 0 }
    }

    /// Reserve the address ranges of each owned space; idempotent.
    pub fn gc_init(&mut self, heap_size: u64)
        requires
            old(self).ms_space.wf(),
        ensures
            final(self).ms_space.wf(),
            final(self).base.heap_size == heap_size,
            final(self).ms_space.initialized,
            final(self).im_space.initialized,
            final(self).base.gc_status == old(self).base.gc_status,
            final(self).ms_space.blocks@ == old(self).ms_space.blocks@,
            final(self).ms_space.cursor == old(self).ms_space.cursor,
    {
        self.base.heap_size = heap_size;
        self.ms_space.init();
        self.im_space.init();
    }

    /// Whether a collection must start: the triggering space is full, or
    /// the user asked for one.
    pub fn collection_required(&self, space_full: bool) -> (r: bool)
        ensures
            r == (space_full || self.base.user_triggered_collection),
    {
        space_full || self.base.user_triggered_collection
    }

    /// The shared base state.
    pub fn base(&self) -> (r: &BasePlan)
        ensures
            r == &self.base,
    {
        &self.base
    }

    /// Reset per-cycle state for a fresh mark phase: the immortal space's
    /// mark state flips; the mark-sweep space needs nothing, its mark
    /// bits having been cleared by the previous sweep.
    pub fn prepare(&mut self, tls: u64)
        ensures
            final(self).im_space.mark_state == !old(self).im_space.mark_state,
            final(self).im_space.reserved == old(self).im_space.reserved,
            final(self).ms_space == old(self).ms_space,
            final(self).base == old(self).base,
    {
        self.im_space.prepare();
    }

    /// Release stage: eagerly sweep the mark-sweep space.  Every cell
    /// marked during the trace stays allocated with its mark cleared;
    /// every allocated cell the trace did not reach returns to its
    /// block's free list; afterwards no mark bit is set anywhere.
    pub fn release(&mut self, tls: u64)
        requires
            old(self).ms_space.wf(),
        ensures
            final(self).ms_space.wf(),
            same_block_layout(&old(self).ms_space, &final(self).ms_space),
            final(self).im_space == old(self).im_space,
            final(self).base == old(self).base,
            final(self).ms_space.cursor == old(self).ms_space.cursor,
            forall|k: int|
                0 <= k < final(self).ms_space.mark_bits@.len() ==> !(#[trigger] final(self).ms_space.mark_bits@[k]),
            forall|bi: int, i: int|
                old(self).ms_space.is_cell_of(bi, i) ==> {
                    let a = #[trigger] old(self).ms_space.blocks@[bi].cell_addr(i);
                    &&& (old(self).ms_space.alloc_at(a) && old(self).ms_space.marked_at(a)
                        ==> final(self).ms_space.alloc_at(a) && !final(self).ms_space.blocks@[bi].is_free(i))
                    &&& (old(self).ms_space.alloc_at(a) && !old(self).ms_space.marked_at(a)
                        ==> !final(self).ms_space.alloc_at(a) && final(self).ms_space.blocks@[bi].is_free(i))
                    &&& (!old(self).ms_space.alloc_at(a) ==> !final(self).ms_space.alloc_at(a)
                        && final(self).ms_space.blocks@[bi].is_free(i))
                },
    {
        self.ms_space.eager_sweep(tls);
    }

    /// The routing table: ordinary requests go to the free-list
    /// allocator; immortal and large-object requests go to the bump
    /// allocators of their own spaces.
    pub fn get_allocator_mapping(&self) -> (r: AllocatorMapping)
        ensures
            r.normal == AllocatorSelector::FreeList(0),
            r.immortal == AllocatorSelector::BumpPointer(0),
            r.los == AllocatorSelector::BumpPointer(1),
    {
        AllocatorMapping {
            normal: AllocatorSelector::FreeList(0),
            immortal: AllocatorSelector::BumpPointer(0),
            los: AllocatorSelector::BumpPointer(1),
        }
    }

    /// Enter the collection cycle: move to `GcPrepare` and enqueue, in
    /// strict stage order, the stop-mutators item (running before the
    /// world is fully stopped, for root scanning), the prepare item, and
    /// the release item, then install the end-of-cycle finalizer.  The
    /// trace closure between prepare and release is seeded by the roots
    /// and run by the external scheduler.
    pub fn schedule_collection(&mut self, scheduler: &mut MMTkScheduler)
        ensures
            final(self).base.gc_status == GcStatus::GcPrepare,
            final(self).base.user_triggered_collection == old(self).base.user_triggered_collection,
            final(self).base.heap_size == old(self).base.heap_size,
            final(self).ms_space == old(self).ms_space,
            final(self).im_space == old(self).im_space,
            final(scheduler).unconstrained@ == old(scheduler).unconstrained@.push(
                WorkItem::StopMutators,
            ),
            final(scheduler).prepare@ == old(scheduler).prepare@.push(WorkItem::Prepare),
            final(scheduler).release@ == old(scheduler).release@.push(WorkItem::Release),
            final(scheduler).finalizer == Some(WorkItem::EndOfGC),
    {
        self.base.set_gc_status(GcStatus::GcPrepare);
        scheduler.add(WorkBucketStage::Unconstrained, WorkItem::StopMutators);
        scheduler.add(WorkBucketStage::Prepare, WorkItem::Prepare);
        scheduler.add(WorkBucketStage::Release, WorkItem::Release);
        scheduler.set_finalizer(Some(WorkItem::EndOfGC));
    }

    /// Pages reserved across the owned spaces: the sole input to the
    /// heap-growth and collection-trigger policy.
    pub fn get_pages_used(&self) -> (r: u64)
        requires
            self.ms_space.wf(),
            self.im_space.wf(),
        ensures
            r == self.im_space.reserved + (self.ms_space.cursor - self.ms_space.start) as int
                / 4096,
    {
        self.im_space.reserved_pages() + self.ms_space.reserved_pages()
    }
}

} // verus!
