use std::collections::HashSet;

use mmtk::free_list_allocator::{FreeListAllocator, MAX_DIRECT_ALLOC_BYTES, MAX_SIZE_CLASS};
use mmtk::marksweepspace::MarkSweepSpace;
use mmtk::BYTES_IN_BLOCK;

const START: u64 = 0x10000000;

fn fresh_space(extent: u64) -> MarkSweepSpace {
    MarkSweepSpace::new("MSspace", START, extent, Vec::new())
}

#[test]
fn word_counts_round_up() {
    assert_eq!(FreeListAllocator::_mi_wsize_from_size(0), 0);
    assert_eq!(FreeListAllocator::_mi_wsize_from_size(1), 1);
    assert_eq!(FreeListAllocator::_mi_wsize_from_size(8), 1);
    assert_eq!(FreeListAllocator::_mi_wsize_from_size(9), 2);
    assert_eq!(FreeListAllocator::_mi_wsize_from_size(16), 2);
    assert_eq!(FreeListAllocator::_mi_wsize_from_size(65), 9);
}

#[test]
fn small_sizes_get_one_class_per_word() {
    assert_eq!(FreeListAllocator::_mi_bin(0), 1);
    assert_eq!(FreeListAllocator::_mi_bin(1), 1);
    assert_eq!(FreeListAllocator::_mi_bin(8), 1);
    assert_eq!(FreeListAllocator::_mi_bin(9), 2);
    assert_eq!(FreeListAllocator::_mi_bin(16), 2);
    assert_eq!(FreeListAllocator::_mi_bin(64), 8);
}

#[test]
fn large_sizes_get_logarithmic_classes() {
    // first logarithmic class: nine words
    assert_eq!(FreeListAllocator::_mi_bin(65), 9);
    assert_eq!(FreeListAllocator::_mi_bin(80), 9);
    assert_eq!(FreeListAllocator::_mi_bin(81), 10);
    // the largest directly served request sits in the largest class
    assert_eq!(
        FreeListAllocator::_mi_bin(MAX_DIRECT_ALLOC_BYTES as usize),
        MAX_SIZE_CLASS
    );
}

#[test]
fn binning_is_monotone_over_sizes() {
    let mut prev = 0u8;
    for size in 0..=70000usize {
        let bin = FreeListAllocator::_mi_bin(size);
        assert!(bin >= prev, "class shrank at size {}", size);
        prev = bin;
    }
}

#[test]
fn request_beyond_the_largest_class_is_refused() {
    // one byte past the largest directly served request maps to the
    // class after the maximum: routing it here would be a fatal
    // invariant violation, never a silent large allocation
    let bin = FreeListAllocator::_mi_bin(MAX_DIRECT_ALLOC_BYTES as usize + 1);
    assert!(bin > MAX_SIZE_CLASS);
}

#[test]
fn alloc_thousand_sixteen_byte_objects() {
    let mut space = fresh_space(0x400000);
    let mut allocator = FreeListAllocator::new(0);
    let cell_size = 24u64; // two words of payload plus the pointer slot
    let cells_per_block = (BYTES_IN_BLOCK - 24) / cell_size;
    let mut seen: HashSet<u64> = HashSet::new();
    for _ in 0..1000 {
        let a = allocator.allocate(&mut space, 16, 8, 0);
        assert!(a != 0);
        assert!(a % 8 == 0);
        assert!(seen.insert(a), "address returned twice before any sweep");
    }
    let expected_blocks = (1000 + cells_per_block - 1) / cells_per_block;
    assert_eq!(space.blocks.len() as u64, expected_blocks);
    assert_eq!(expected_blocks, 1);
}

#[test]
fn carved_block_drains_to_exactly_its_cell_count() {
    // cells of 16392 bytes: exactly three fit a block beside its trailer
    let mut space = fresh_space(0x200000);
    let mut allocator = FreeListAllocator::new(0);
    let size = 16384usize;
    let cell_size = 16392u64;
    let n_cells = (BYTES_IN_BLOCK - 24) / cell_size;
    assert_eq!(n_cells, 3);
    // the free chain pops highest-laid-out cell first (LIFO)
    let a1 = allocator.allocate(&mut space, size, 8, 0);
    let a2 = allocator.allocate(&mut space, size, 8, 0);
    let a3 = allocator.allocate(&mut space, size, 8, 0);
    assert_eq!(a1, START + 2 * cell_size);
    assert_eq!(a2, START + cell_size);
    assert_eq!(a3, START);
    assert_eq!(space.blocks.len(), 1);
    // the block is exhausted: the next request carves a second block
    let a4 = allocator.allocate(&mut space, size, 8, 0);
    assert_eq!(a4, START + BYTES_IN_BLOCK + 2 * cell_size);
    assert_eq!(space.blocks.len(), 2);
}

#[test]
fn exhausted_space_reports_out_of_memory() {
    // a space of exactly one block serves one carve, then refuses
    let mut space = fresh_space(BYTES_IN_BLOCK);
    let mut allocator = FreeListAllocator::new(0);
    let a1 = allocator.allocate(&mut space, 16384, 8, 0);
    assert!(a1 != 0);
    let _ = allocator.allocate(&mut space, 16384, 8, 0);
    let _ = allocator.allocate(&mut space, 16384, 8, 0);
    // chain exhausted and no room for another block: the sentinel
    let a4 = allocator.allocate(&mut space, 16384, 8, 0);
    assert_eq!(a4, 0);
}

#[test]
fn acquire_block_for_size_publishes_a_chain_head() {
    let mut space = fresh_space(0x200000);
    let mut allocator = FreeListAllocator::new(7);
    let bin = FreeListAllocator::_mi_bin(16) as usize;
    assert_eq!(allocator.blocks_direct[bin], 0);
    let block = allocator.acquire_block_for_size(&mut space, 16);
    assert_eq!(block, START);
    // the table entry is the fresh block's trailer address
    assert_eq!(allocator.blocks_direct[bin], START + BYTES_IN_BLOCK - 24);
}

#[test]
fn returned_block_leaves_the_chain() {
    let mut space = fresh_space(0x200000);
    let mut allocator = FreeListAllocator::new(0);
    let bin = FreeListAllocator::_mi_bin(16) as usize;
    let block = allocator.acquire_block_for_size(&mut space, 16);
    assert!(block != 0);
    assert!(allocator.blocks_direct[bin] != 0);
    // the freshly carved block is fully free, so it may be returned
    allocator.return_block(&space, bin as u8);
    assert_eq!(allocator.blocks_direct[bin], 0);
}

#[test]
fn acquire_block_maps_block_sized_extents() {
    let mut space = fresh_space(0x200000);
    let allocator = FreeListAllocator::new(0);
    let b1 = allocator.acquire_block(&mut space);
    let b2 = allocator.acquire_block(&mut space);
    assert_eq!(b1, START);
    assert_eq!(b2, START + BYTES_IN_BLOCK);
}

#[test]
fn five_thousand_objects_need_two_blocks() {
    let mut space = fresh_space(0x400000);
    let mut allocator = FreeListAllocator::new(0);
    let cells_per_block = (BYTES_IN_BLOCK - 24) / 24;
    for _ in 0..5000 {
        let a = allocator.allocate(&mut space, 16, 8, 0);
        assert!(a != 0);
    }
    let expected_blocks = (5000 + cells_per_block - 1) / cells_per_block;
    assert_eq!(space.blocks.len() as u64, expected_blocks);
    assert_eq!(expected_blocks, 2);
}
