use mmtk::free_list_allocator::FreeListAllocator;
use mmtk::gc_work::MSProcessEdges;
use mmtk::marksweepspace::MarkSweepSpace;
use mmtk::mmtk::MMTK;
use mmtk::options::{Options, UnsafeOptionsWrapper};
use mmtk::plan::{
    AllocationSemantics, AllocatorSelector, FreeListMarkSweep, GcStatus, MMTkScheduler, WorkItem,
};
use mmtk::side_metadata::{metadata_address_range_size, verify_side_metadata_sanity, SideMetadataSpec};
use mmtk::malloc_allocator::{heap_full, HeapState, MallocAllocator};

const START: u64 = 0x10000000;

fn fresh_space(extent: u64) -> MarkSweepSpace {
    MarkSweepSpace::new("MSspace", START, extent, Vec::new())
}

#[test]
fn collect_with_partly_reachable_objects() {
    // allocate A, B and C; only A and C are reachable from roots
    let mut space = fresh_space(0x200000);
    let mut allocator = FreeListAllocator::new(0);
    let a = allocator.allocate(&mut space, 16, 8, 0);
    let b = allocator.allocate(&mut space, 16, 8, 0);
    let c = allocator.allocate(&mut space, 16, 8, 0);
    assert!(a != 0 && b != 0 && c != 0);
    let mut trace = MSProcessEdges::new(Vec::new(), true);
    trace.trace_object(&mut space, a);
    trace.trace_object(&mut space, c);
    assert!(space.is_live(a));
    assert!(!space.is_live(b));
    // release: one eager sweep over the space
    space.eager_sweep(0);
    // A and C keep their cells, with the mark cleared for the next cycle
    assert!(!space.is_live(a));
    assert!(!space.is_live(c));
    assert!(space.is_allocated(a));
    assert!(space.is_allocated(c));
    // B's cell went back to the free list and serves the next request
    assert!(!space.is_allocated(b));
    let d = allocator.allocate(&mut space, 16, 8, 0);
    assert_eq!(d, b);
    assert!(space.is_allocated(d));
}

#[test]
fn tracing_twice_marks_and_enqueues_once() {
    let mut space = fresh_space(0x200000);
    let mut allocator = FreeListAllocator::new(0);
    let a = allocator.allocate(&mut space, 16, 8, 0);
    let mut trace = MSProcessEdges::new(Vec::new(), true);
    let r1 = trace.trace_object(&mut space, a);
    let r2 = trace.trace_object(&mut space, a);
    assert_eq!(r1, a);
    assert_eq!(r2, a);
    assert!(space.is_live(a));
    // the object's edges were enqueued exactly once
    assert_eq!(trace.nodes.len(), 1);
    assert_eq!(trace.nodes[0], a);
}

#[test]
fn tracing_null_is_a_no_op() {
    let mut space = fresh_space(0x200000);
    let mut trace = MSProcessEdges::new(Vec::new(), false);
    let r = trace.trace_object(&mut space, 0);
    assert_eq!(r, 0);
    assert_eq!(trace.nodes.len(), 0);
}

#[test]
fn sweep_without_marks_frees_everything() {
    let mut space = fresh_space(0x200000);
    let mut allocator = FreeListAllocator::new(0);
    let a = allocator.allocate(&mut space, 16, 8, 0);
    let b = allocator.allocate(&mut space, 16, 8, 0);
    space.eager_sweep(0);
    assert!(!space.is_allocated(a));
    assert!(!space.is_allocated(b));
    // the freed cells are available again, in LIFO order of the sweep
    let c = allocator.allocate(&mut space, 16, 8, 0);
    assert_eq!(c, a);
}

#[test]
fn plan_schedules_the_cycle_in_stage_order() {
    let options = UnsafeOptionsWrapper::new(Options::default());
    let mut plan = FreeListMarkSweep::new(START, 0x200000, options);
    let mut scheduler = MMTkScheduler::new();
    assert_eq!(plan.base.gc_status, GcStatus::NotInGC);
    plan.schedule_collection(&mut scheduler);
    assert_eq!(plan.base.gc_status, GcStatus::GcPrepare);
    assert_eq!(scheduler.unconstrained, vec![WorkItem::StopMutators]);
    assert_eq!(scheduler.prepare, vec![WorkItem::Prepare]);
    assert_eq!(scheduler.release, vec![WorkItem::Release]);
    assert_eq!(scheduler.finalizer, Some(WorkItem::EndOfGC));
}

#[test]
fn plan_prepare_resets_the_immortal_mark_state() {
    let options = UnsafeOptionsWrapper::new(Options::default());
    let mut plan = FreeListMarkSweep::new(START, 0x200000, options);
    let before = plan.im_space.mark_state;
    plan.prepare(0);
    assert_eq!(plan.im_space.mark_state, !before);
}

#[test]
fn plan_reports_reserved_pages() {
    let options = UnsafeOptionsWrapper::new(Options::default());
    let mut plan = FreeListMarkSweep::new(START, 0x200000, options);
    assert_eq!(plan.get_pages_used(), 0);
    let mut allocator = FreeListAllocator::new(0);
    let a = allocator.allocate(&mut plan.ms_space, 16, 8, 0);
    assert!(a != 0);
    // one block of sixteen pages was mapped
    assert_eq!(plan.get_pages_used(), 16);
}

#[test]
fn plan_release_sweeps_the_space() {
    let options = UnsafeOptionsWrapper::new(Options::default());
    let mut plan = FreeListMarkSweep::new(START, 0x200000, options);
    let mut allocator = FreeListAllocator::new(0);
    let a = allocator.allocate(&mut plan.ms_space, 16, 8, 0);
    plan.release(0);
    assert!(!plan.ms_space.is_allocated(a));
}

#[test]
fn collection_required_follows_fullness_and_requests() {
    let options = UnsafeOptionsWrapper::new(Options::default());
    let plan = FreeListMarkSweep::new(START, 0x200000, options);
    assert!(!plan.collection_required(false));
    assert!(plan.collection_required(true));
}

#[test]
fn allocator_mapping_routes_by_semantics() {
    let options = UnsafeOptionsWrapper::new(Options::default());
    let plan = FreeListMarkSweep::new(START, 0x200000, options);
    let mapping = plan.get_allocator_mapping();
    assert_eq!(mapping.get(AllocationSemantics::Normal), AllocatorSelector::FreeList(0));
    assert_eq!(mapping.get(AllocationSemantics::Immortal), AllocatorSelector::BumpPointer(0));
    let constraints = plan.constraints();
    assert!(!constraints.moves_objects);
}

#[test]
fn plan_declares_disjoint_side_metadata() {
    let options = UnsafeOptionsWrapper::new(Options::default());
    let plan = FreeListMarkSweep::new(START, 0x200000, options);
    assert_eq!(plan.ms_space.local_specs.len(), 6);
    assert!(verify_side_metadata_sanity(&plan.ms_space.local_specs));
    let unit = metadata_address_range_size(&plan.ms_space.local_specs[0]);
    assert_eq!(unit, 1u64 << 34);
    assert_eq!(plan.ms_space.local_specs[1].offset, unit);
    assert_eq!(plan.ms_space.local_specs[5].offset, 5 * unit);
}

#[test]
fn overlapping_side_metadata_is_detected() {
    let a = SideMetadataSpec { is_global: false, offset: 0, log_num_of_bits: 6, log_min_obj_size: 16 };
    let b = SideMetadataSpec { is_global: false, offset: 1, log_num_of_bits: 6, log_min_obj_size: 16 };
    let specs = vec![a, b];
    assert!(!verify_side_metadata_sanity(&specs));
}

#[test]
fn root_handle_starts_idle() {
    let mmtk = MMTK::new();
    assert_eq!(mmtk.plan.base.gc_status, GcStatus::NotInGC);
    assert_eq!(mmtk.plan.ms_space.blocks.len(), 0);
    assert!(mmtk.scheduler.finalizer.is_none());
}

#[test]
fn malloc_allocator_accounts_for_the_heap() {
    let mut heap = HeapState { heap_size: 100, heap_used: 0 };
    assert!(!heap_full(&heap));
    MallocAllocator::record_allocation(&mut heap, 60);
    assert!(!heap_full(&heap));
    MallocAllocator::record_allocation(&mut heap, 40);
    assert!(heap_full(&heap));
    let mut alloc = MallocAllocator::new(3, None);
    assert_eq!(alloc.tls, 3);
    alloc.rebind(Some(1));
    assert_eq!(alloc.space, Some(1));
}

#[test]
fn user_request_raises_the_collection_flag() {
    let options = UnsafeOptionsWrapper::new(Options::default());
    let mut plan = FreeListMarkSweep::new(START, 0x200000, options);
    assert!(!plan.collection_required(false));
    plan.base.request_collection();
    assert!(plan.collection_required(false));
    plan.base.set_gc_status(GcStatus::GcProper);
    assert_eq!(plan.base.gc_status, GcStatus::GcProper);
}

#[test]
fn space_observers_describe_the_policy() {
    let space = fresh_space(0x200000);
    assert_eq!(space.name(), "MSspace");
    assert!(!space.is_movable());
}
