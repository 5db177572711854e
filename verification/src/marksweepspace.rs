//! A reserved, page-granular memory region backing the mark-sweep policy.
//!
//! The space owns a contiguous reserved address range, maps pages on
//! demand by advancing a cursor, and hands out block-sized extents.  It
//! also owns the side-metadata bit planes for the range: the mark bit and
//! the allocation bit of every possible cell address, the single source
//! of truth for "is this object marked" and "is this address allocated".

use vstd::prelude::*;
use vstd::arithmetic::div_mod::{
    lemma_div_is_ordered, lemma_fundamental_div_mod, lemma_fundamental_div_mod_converse,
    lemma_hoist_over_denominator,
};
use crate::{Address, BYTES_IN_BLOCK, BYTES_IN_PAGE, MIN_OBJ_BYTES};
use crate::block::Block;
use crate::side_metadata::{Bitmap, SideMetadataSpec};

verus! {

/// The quotient grows strictly when the dividend grows by a full
/// granule.
pub proof fn lemma_bit_index_strict(a: int, b: int)
    requires
        0 <= a,
        a + 16 <= b,
    ensures
        a / 16 < b / 16,
{
    lemma_hoist_over_denominator(a, 1, 16);
    lemma_div_is_ordered(a + 16, b, 16);
}

/// A space backing the mark-sweep policy.
pub struct MarkSweepSpace {
    /// Human-readable name of the space.
    pub name: &'static str,
    /// Base of the reserved address range.
    pub start: Address,
    /// Size of the reserved range in bytes.
    pub extent: u64,
    /// First unmapped address: `start` plus the bytes mapped so far.
    pub cursor: Address,
    /// Every block carved from this space, in address order.
    pub blocks: Vec<Block>,
    /// Mark-bit plane: one bit per `MIN_OBJ_BYTES` of mapped range.
    pub mark_bits: Bitmap,
    /// Allocation-bit plane, laid out like the mark bits.
    pub alloc_bits: Bitmap,
    /// Layout of the local side-metadata planes this space was declared
    /// with.
    pub local_specs: Vec<SideMetadataSpec>,
    /// Whether the reserved range has been registered with the global
    /// virtual-memory map.
    pub initialized: bool,
}

impl MarkSweepSpace {
    /// Metadata index of address `a`: one bit per `MIN_OBJ_BYTES`.
    pub open spec fn bit_index(&self, a: int) -> int {
        (a - self.start) / MIN_OBJ_BYTES as int
    }

    /// Whether `a` lies in the mapped range with a full granule of room.
    pub open spec fn in_meta_range(&self, a: int) -> bool {
        self.start <= a && a + MIN_OBJ_BYTES <= self.cursor
    }

    /// The mark bit of address `a`.
    pub open spec fn marked_at(&self, a: int) -> bool {
        self.mark_bits@[self.bit_index(a)]
    }

    /// The allocation bit of address `a`.
    pub open spec fn alloc_at(&self, a: int) -> bool {
        self.alloc_bits@[self.bit_index(a)]
    }

    /// Whether `(bi, i)` names a carved cell of this space.
    pub open spec fn is_cell_of(&self, bi: int, i: int) -> bool {
        0 <= bi < self.blocks@.len() && 0 <= i < self.blocks@[bi].n_cells()
    }

    /// Whether some carved cell has metadata index `idx`.
    pub open spec fn is_cell_bit_index(&self, idx: int) -> bool {
        exists|bi: int, i: int|
            self.is_cell_of(bi, i) && self.bit_index(
                #[trigger] self.blocks@[bi].cell_addr(i),
            ) == idx
    }

    /// Whether `a` is the address of a carved cell that is currently
    /// handed out.
    pub open spec fn is_allocated_cell(&self, a: int) -> bool {
        exists|bi: int, i: int|
            self.is_cell_of(bi, i) && a == #[trigger] self.blocks@[bi].cell_addr(i)
                && !self.blocks@[bi].is_free(i)
    }

    /// Addresses of all cells currently handed out.
    pub open spec fn spec_allocated(&self) -> Set<int> {
        Set::new(|a: int| self.is_allocated_cell(a))
    }

    /// Whether `a` is the address of any carved cell of this space.
    pub open spec fn is_carved_cell(&self, a: int) -> bool {
        exists|bi: int, i: int|
            self.is_cell_of(bi, i) && a == #[trigger] self.blocks@[bi].cell_addr(i)
    }

    /// Addresses of all carved cells whose mark bit is set.
    pub open spec fn marked_cells(&self) -> Set<int> {
        Set::new(|a: int| self.is_carved_cell(a) && self.marked_at(a))
    }

    /// Well-formedness: sane geometry of the reserved range, metadata
    /// planes covering exactly the mapped bytes, well-formed blocks laid
    /// out disjointly inside the mapped range, the allocation bit of every
    /// cell agreeing with its block's free list, and mark bits set only on
    /// allocated cells.
    pub open spec fn wf(&self) -> bool {
        &&& self.start % 4096 == 0
        &&& 4096 <= self.start
        &&& self.start + self.extent <= u64::MAX
        &&& self.extent % 4096 == 0
        &&& self.extent <= 0x40000000
        &&& self.start <= self.cursor <= self.start + self.extent
        &&& (self.cursor - self.start) % 4096 == 0
        &&& self.mark_bits@.len() == (self.cursor - self.start) as int / 16
        &&& self.alloc_bits@.len() == (self.cursor - self.start) as int / 16
        &&& forall|bi: int| 0 <= bi < self.blocks@.len() ==> (#[trigger] self.blocks@[bi]).wf()
        &&& forall|bi: int|
            0 <= bi < self.blocks@.len() ==> self.start <= (#[trigger] self.blocks@[bi]).base
                && self.blocks@[bi].base + BYTES_IN_BLOCK <= self.cursor
        &&& forall|bi1: int, bi2: int|
            0 <= bi1 < bi2 < self.blocks@.len() ==> (#[trigger] self.blocks@[bi1]).base
                + BYTES_IN_BLOCK <= (#[trigger] self.blocks@[bi2]).base
        &&& forall|bi: int, i: int|
            self.is_cell_of(bi, i) ==> ((#[trigger] self.blocks@[bi].cell_addr(i)) >= 0
                && (self.blocks@[bi].is_free(i) <==> !self.alloc_at(self.blocks@[bi].cell_addr(i))))
        &&& forall|idx: int|
            0 <= idx < self.mark_bits@.len() && #[trigger] self.mark_bits@[idx]
                ==> self.alloc_bits@[idx] && self.is_cell_bit_index(idx)
    }

    /// The space's human-readable name.
    pub fn name(&self) -> (r: &'static str)
        ensures
            r == self.name,
    {
        self.name
    }

    /// Mark-sweep never moves objects.
    pub fn is_movable(&self) -> (r: bool)
        ensures
            !r,
    {
        false
    }

    /// A carved cell's address lies in the mapped metadata range, and its
    /// metadata index is a valid bit position.
    pub proof fn lemma_cell_in_range(&self, bi: int, i: int)
        requires
            self.wf(),
            self.is_cell_of(bi, i),
        ensures
            self.in_meta_range(self.blocks@[bi].cell_addr(i)),
            0 <= self.bit_index(self.blocks@[bi].cell_addr(i)) < self.mark_bits@.len(),
    {
        let b = self.blocks@[bi];
        b.lemma_cell_addr_in_block(i);
        let a = b.cell_addr(i);
        assert(a + MIN_OBJ_BYTES <= self.cursor);
        lemma_div_is_ordered(0, a - self.start, 16);
        lemma_bit_index_strict(a - self.start, self.cursor - self.start);
    }

    /// Distinct carved cells have distinct metadata indices: within one
    /// block cells lie a full cell size apart, and blocks occupy disjoint
    /// extents.
    pub proof fn lemma_cell_bit_injective(&self, bi1: int, i1: int, bi2: int, i2: int)
        requires
            self.wf(),
            self.is_cell_of(bi1, i1),
            self.is_cell_of(bi2, i2),
            !(bi1 == bi2 && i1 == i2),
        ensures
            self.bit_index(self.blocks@[bi1].cell_addr(i1)) != self.bit_index(
                self.blocks@[bi2].cell_addr(i2),
            ),
    {
        let a1 = self.blocks@[bi1].cell_addr(i1);
        let a2 = self.blocks@[bi2].cell_addr(i2);
        self.lemma_cell_in_range(bi1, i1);
        self.lemma_cell_in_range(bi2, i2);
        if bi1 == bi2 {
            if i1 < i2 {
                self.blocks@[bi1].lemma_cell_addr_monotonic(i1, i2);
                lemma_bit_index_strict(a1 - self.start, a2 - self.start);
            } else {
                self.blocks@[bi1].lemma_cell_addr_monotonic(i2, i1);
                lemma_bit_index_strict(a2 - self.start, a1 - self.start);
            }
        } else if bi1 < bi2 {
            self.blocks@[bi1].lemma_cell_addr_in_block(i1);
            self.blocks@[bi2].lemma_cell_addr_in_block(i2);
            lemma_bit_index_strict(a1 - self.start, a2 - self.start);
        } else {
            self.blocks@[bi1].lemma_cell_addr_in_block(i1);
            self.blocks@[bi2].lemma_cell_addr_in_block(i2);
            lemma_bit_index_strict(a2 - self.start, a1 - self.start);
        }
    }

    /// Create a space over the reserved range `[start, start + extent)`.
    /// Nothing is mapped yet: no blocks, no metadata bits.
    pub fn new(
        name: &'static str,
        start: Address,
        extent: u64,
        local_specs: Vec<SideMetadataSpec>,
    ) -> (s: MarkSweepSpace)
        requires
            start % 4096 == 0,
            4096 <= start,
            start + extent <= u64::MAX,
            extent % 4096 == 0,
            extent <= 0x40000000,
        ensures
            s.wf(),
            s.name == name,
            s.start == start,
            s.extent == extent,
            s.cursor == start,
            s.blocks@.len() == 0,
            s.local_specs == local_specs,
            !s.initialized,
            s.spec_allocated() =~= Set::<int>::empty(),
    {
        let s = MarkSweepSpace {
            name,
            start,
            extent,
            cursor: start,
            blocks: Vec::new(),
            mark_bits: Bitmap::new(),
            alloc_bits: Bitmap::new(),
            local_specs,
            initialized: false,
        };
        s
    }

    /// Register the space's reserved range with the global virtual-memory
    /// map.  Idempotent: mapping state and metadata are untouched.
    pub fn init(&mut self)
        requires
            old(self).wf(),
        ensures
            final(self).wf(),
            *final(self) == (MarkSweepSpace { initialized: true, ..*old(self) }),
    {
        self.initialized = true;
        proof {
            assert forall|bi: int, i: int| self.is_cell_of(bi, i) implies ((
            #[trigger] self.blocks@[bi].cell_addr(i)) >= 0 && (self.blocks@[bi].is_free(i)
                <==> !self.alloc_at(self.blocks@[bi].cell_addr(i)))) by {
                assert(old(self).is_cell_of(bi, i));
            }
            assert forall|idx: int|
                0 <= idx < self.mark_bits@.len() && #[trigger] self.mark_bits@[idx] implies self
                .alloc_bits@[idx] && self.is_cell_bit_index(idx) by {
                assert(old(self).mark_bits@[idx]);
                let (bj, j) = choose|bj: int, j: int|
                    old(self).is_cell_of(bj, j) && old(self).bit_index(
                        #[trigger] old(self).blocks@[bj].cell_addr(j),
                    ) == idx;
                assert(self.is_cell_of(bj, j) && self.bit_index(self.blocks@[bj].cell_addr(j))
                    == idx);
            }
        }
    }

    /// Map `pages` fresh pages and return their base address, or zero
    /// when the reserved range cannot satisfy the request — the
    /// out-of-memory signal this core reports upward without deciding
    /// policy.  Freshly mapped pages are zeroed, so their metadata bits
    /// are clear.
    pub fn acquire(&mut self, tls: u64, pages: u64) -> (r: Address)
        requires
            old(self).wf(),
            1 <= pages <= 0x40000,
        ensures
            final(self).wf(),
            r == 0 ==> *final(self) == *old(self) && old(self).cursor + pages * BYTES_IN_PAGE
                > old(self).start + old(self).extent,
            r != 0 ==> {
                &&& r == old(self).cursor
                &&& final(self).cursor == old(self).cursor + pages * BYTES_IN_PAGE
                &&& final(self).start == old(self).start
                &&& final(self).extent == old(self).extent
                &&& final(self).name == old(self).name
                &&& final(self).initialized == old(self).initialized
                &&& final(self).local_specs == old(self).local_specs
                &&& final(self).blocks@ == old(self).blocks@
                &&& r % 4096 == 0
                &&& r >= 4096
                &&& final(self).mark_bits@.len() == old(self).mark_bits@.len() + (pages
                    * BYTES_IN_PAGE) / 16
                &&& final(self).alloc_bits@.len() == final(self).mark_bits@.len()
                &&& forall|k: int|
                    0 <= k < old(self).mark_bits@.len() ==> final(self).mark_bits@[k]
                        == old(self).mark_bits@[k] && final(self).alloc_bits@[k] == old(self).alloc_bits@[k]
                &&& forall|k: int|
                    old(self).mark_bits@.len() <= k < final(self).mark_bits@.len() ==> final(self).mark_bits@[k] == false && final(self).alloc_bits@[k] == false
            },
    {
        let bytes = pages * BYTES_IN_PAGE;
        if bytes > self.extent - (self.cursor - self.start) {
            return 0;
        }
        let r = self.cursor;
        self.cursor = self.cursor + bytes;
        let grow_bits = (bytes / 16) as usize;
        proof {
            let c0 = old(self).cursor - old(self).start;
            let d = bytes as int;
            assert(d % 16 == 0 && c0 % 16 == 0) by {
                lemma_mod_16_of_4096(d);
                lemma_mod_16_of_4096(c0);
            }
            assert((c0 + d) / 16 == c0 / 16 + d / 16) by {
                lemma_fundamental_div_mod(c0, 16);
                lemma_fundamental_div_mod(d, 16);
                lemma_fundamental_div_mod_converse(c0 + d, 16, c0 / 16 + d / 16, 0);
            }
            assert((c0 + d) % 4096 == 0) by {
                vstd::arithmetic::div_mod::lemma_add_mod_noop(c0, d, 4096);
            }
        }
        self.mark_bits.grow(grow_bits);
        self.alloc_bits.grow(grow_bits);
        proof {
            assert forall|bi: int, i: int| self.is_cell_of(bi, i) implies ((
            #[trigger] self.blocks@[bi].cell_addr(i)) >= 0 && (self.blocks@[bi].is_free(i)
                <==> !self.alloc_at(self.blocks@[bi].cell_addr(i)))) by {
                old(self).lemma_cell_in_range(bi, i);
            }
            assert forall|idx: int|
                0 <= idx < self.mark_bits@.len() && #[trigger] self.mark_bits@[idx] implies self
                .alloc_bits@[idx] && self.is_cell_bit_index(idx) by {
                if idx < old(self).mark_bits@.len() {
                    assert(old(self).mark_bits@[idx]);
                    assert(old(self).is_cell_bit_index(idx));
                    let (bi, i) = choose|bi: int, i: int|
                        old(self).is_cell_of(bi, i) && old(self).bit_index(
                            #[trigger] old(self).blocks@[bi].cell_addr(i),
                        ) == idx;
                    assert(self.is_cell_of(bi, i) && self.bit_index(self.blocks@[bi].cell_addr(i))
                        == idx);
                }
            }
        }
        r
    }

    /// Pages currently mapped by this space: the sole input to
    /// heap-growth policy.
    pub fn reserved_pages(&self) -> (r: u64)
        requires
            self.wf(),
        ensures
            r == (self.cursor - self.start) as int / BYTES_IN_PAGE as int,
    {
        (self.cursor - self.start) / BYTES_IN_PAGE
    }

    /// Whether the object at `object` carries the mark of the current
    /// cycle; false for addresses outside the mapped range.
    pub fn is_live(&self, object: Address) -> (r: bool)
        requires
            self.wf(),
        ensures
            r == (self.in_meta_range(object as int) && self.marked_at(object as int)),
    {
        if object < self.start || object - self.start > self.cursor - self.start
            || self.cursor - self.start < 16 || object - self.start > self.cursor - self.start
            - 16 {
            proof {
                if self.in_meta_range(object as int) {
                    assert(object as int + 16 <= self.cursor);
                }
            }
            return false;
        }
        let idx = ((object - self.start) / 16) as usize;
        proof {
            lemma_bit_index_strict(object as int - self.start, self.cursor - self.start);
            lemma_div_is_ordered(0, object as int - self.start, 16);
        }
        self.mark_bits.get_bit(idx)
    }

    /// Whether the allocation bit of `object` is set; false for addresses
    /// outside the mapped range.
    pub fn is_allocated(&self, object: Address) -> (r: bool)
        requires
            self.wf(),
        ensures
            r == (self.in_meta_range(object as int) && self.alloc_at(object as int)),
    {
        if object < self.start || self.cursor - self.start < 16 || object - self.start
            > self.cursor - self.start - 16 {
            proof {
                if self.in_meta_range(object as int) {
                    assert(object as int + 16 <= self.cursor);
                }
            }
            return false;
        }
        let idx = ((object - self.start) / 16) as usize;
        proof {
            lemma_bit_index_strict(object as int - self.start, self.cursor - self.start);
            lemma_div_is_ordered(0, object as int - self.start, 16);
        }
        self.alloc_bits.get_bit(idx)
    }
}

/// Two spaces with the same block layout: equally many blocks, each
/// with unchanged base, cell size, chain link and cell count.  Popping
/// and freeing cells keeps the layout; only carving extends it.
pub open spec fn same_block_layout(s1: &MarkSweepSpace, s2: &MarkSweepSpace) -> bool {
    &&& s2.blocks@.len() == s1.blocks@.len()
    &&& forall|bi: int|
        0 <= bi < s1.blocks@.len() ==> {
            &&& (#[trigger] s2.blocks@[bi]).base == s1.blocks@[bi].base
            &&& s2.blocks@[bi].data.size == s1.blocks@[bi].data.size
            &&& s2.blocks@[bi].data.next == s1.blocks@[bi].data.next
        }
}

impl MarkSweepSpace {
    /// Pop one free cell from block `bi` and set its allocation bit; the
    /// cell is handed out.  Returns zero, changing nothing, when the
    /// block is exhausted.  A returned cell was not allocated before the
    /// call and is allocated after it, and no other cell changes hands.
    pub fn pop_cell_in_block(&mut self, bi: usize) -> (c: Address)
        requires
            old(self).wf(),
            bi < old(self).blocks@.len(),
        ensures
            final(self).wf(),
            same_block_layout(old(self), final(self)),
            final(self).start == old(self).start,
            final(self).cursor == old(self).cursor,
            final(self).extent == old(self).extent,
            final(self).name == old(self).name,
            final(self).initialized == old(self).initialized,
            final(self).local_specs == old(self).local_specs,
            final(self).mark_bits@ == old(self).mark_bits@,
            forall|bj: int|
                0 <= bj < old(self).blocks@.len() && bj != bi ==> final(self).blocks@[bj] == old(self).blocks@[bj],
            c == 0 ==> final(self).blocks@ == old(self).blocks@ && final(self).alloc_bits@
                == old(self).alloc_bits@ && old(self).blocks@[bi as int].free_seq().len() == 0,
            c != 0 ==> {
                &&& old(self).blocks@[bi as int].free_seq().len() > 0
                &&& c as int == old(self).blocks@[bi as int].cell_addr(
                    old(self).blocks@[bi as int].free_seq().last(),
                )
                &&& final(self).blocks@[bi as int].free_seq() == old(self).blocks@[bi as int].free_seq().drop_last()
                &&& !old(self).is_allocated_cell(c as int)
                &&& !old(self).alloc_at(c as int)
                &&& final(self).spec_allocated() =~= old(self).spec_allocated().insert(c as int)
                &&& final(self).alloc_at(c as int)
                &&& old(self).in_meta_range(c as int)
                &&& c % 8 == 0
                &&& final(self).blocks@[bi as int].data.size == old(self).blocks@[bi as int].data.size
            },
    {
        let ghost s0 = *old(self);
        let mut b = self.blocks.remove(bi);
        let c = b.pop_cell();
        if c == 0 {
            self.blocks.insert(bi, b);
            proof {
                assert(self.blocks@ =~= s0.blocks@);
                assert(self.alloc_bits@ =~= s0.alloc_bits@);
            }
            return 0;
        }
        let ghost ti = s0.blocks@[bi as int].free_seq().last();
        proof {
            s0.lemma_cell_in_range(bi as int, ti);
            s0.blocks@[bi as int].lemma_cell_addr_in_block(ti);
        }
        let idx = ((c - self.start) / 16) as usize;
        self.alloc_bits.set_bit(idx, true);
        self.blocks.insert(bi, b);
        proof {
            let s1 = self;
            let bii = bi as int;
            let ob = s0.blocks@[bii];
            let nb = s1.blocks@[bii];
            assert(s1.blocks@ =~= s0.blocks@.update(bii, nb));
            let cidx = s0.bit_index(c as int);
            assert(s1.alloc_bits@ =~= s0.alloc_bits@.update(cidx, true));
            // the popped cell was free before, hence unallocated
            assert(ob.is_free(ti)) by {
                assert(ob.free_seq()[ob.free_seq().len() - 1] == ti);
            }
            assert(!s0.alloc_at(c as int));
            assert(!s0.is_allocated_cell(c as int)) by {
                if s0.is_allocated_cell(c as int) {
                    let (bj, j) = choose|bj: int, j: int|
                        s0.is_cell_of(bj, j) && c as int == #[trigger] s0.blocks@[bj].cell_addr(j)
                            && !s0.blocks@[bj].is_free(j);
                    if bj == bii && j == ti {
                        assert(false);
                    } else {
                        s0.lemma_cell_bit_injective(bj, j, bii, ti);
                    }
                }
            }
            // free lists and allocation bits still agree cell by cell
            assert forall|bj: int, j: int| s1.is_cell_of(bj, j) implies ((
            #[trigger] s1.blocks@[bj].cell_addr(j)) >= 0 && (s1.blocks@[bj].is_free(j)
                <==> !s1.alloc_at(s1.blocks@[bj].cell_addr(j)))) by {
                s0.lemma_cell_in_range(bj, j);
                if bj == bii && j == ti {
                } else {
                    s0.lemma_cell_bit_injective(bj, j, bii, ti);
                    assert(s1.alloc_at(s1.blocks@[bj].cell_addr(j)) == s0.alloc_at(
                        s0.blocks@[bj].cell_addr(j),
                    ));
                    if bj == bii {
                        assert(nb.free_seq() == ob.free_seq().drop_last());
                        assert(nb.is_free(j) == ob.is_free(j)) by {
                            if ob.is_free(j) {
                                let k = choose|k: int|
                                    0 <= k < ob.free_seq().len() && ob.free_seq()[k] == j;
                                assert(k < ob.free_seq().len() - 1) by {
                                    if k == ob.free_seq().len() - 1 {
                                        assert(j == ti);
                                    }
                                }
                                assert(nb.free_seq()[k] == j);
                            } else {
                                if nb.is_free(j) {
                                    let k = choose|k: int|
                                        0 <= k < nb.free_seq().len() && nb.free_seq()[k] == j;
                                    assert(ob.free_seq()[k] == j);
                                }
                            }
                        }
                    }
                }
            }
            // mark bits still point at allocated cells
            assert forall|idx2: int|
                0 <= idx2 < s1.mark_bits@.len() && #[trigger] s1.mark_bits@[idx2] implies s1
                .alloc_bits@[idx2] && s1.is_cell_bit_index(idx2) by {
                assert(s0.mark_bits@[idx2]);
                let (bj, j) = choose|bj: int, j: int|
                    s0.is_cell_of(bj, j) && s0.bit_index(#[trigger] s0.blocks@[bj].cell_addr(j))
                        == idx2;
                assert(s1.is_cell_of(bj, j) && s1.bit_index(s1.blocks@[bj].cell_addr(j)) == idx2);
            }
            // the allocated set gained exactly the popped cell
            assert(s1.spec_allocated() =~= s0.spec_allocated().insert(c as int)) by {
                assert forall|a: int| s1.is_allocated_cell(a) implies (s0.is_allocated_cell(a) || a
                    == c as int) by {
                    let (bj, j) = choose|bj: int, j: int|
                        s1.is_cell_of(bj, j) && a == #[trigger] s1.blocks@[bj].cell_addr(j)
                            && !s1.blocks@[bj].is_free(j);
                    if bj == bii && j == ti {
                        assert(a == c as int);
                    } else if bj == bii {
                        assert(!ob.is_free(j)) by {
                            if ob.is_free(j) {
                                let k = choose|k: int|
                                    0 <= k < ob.free_seq().len() && ob.free_seq()[k] == j;
                                assert(k < ob.free_seq().len() - 1) by {
                                    if k == ob.free_seq().len() - 1 {
                                        assert(j == ti);
                                    }
                                }
                                assert(nb.free_seq()[k] == j);
                            }
                        }
                        assert(s0.is_cell_of(bj, j) && a == s0.blocks@[bj].cell_addr(j)
                            && !s0.blocks@[bj].is_free(j));
                        assert(s0.is_allocated_cell(a));
                    } else {
                        assert(s0.is_allocated_cell(a));
                    }
                }
                assert forall|a: int| s0.is_allocated_cell(a) implies s1.is_allocated_cell(a) by {
                    let (bj, j) = choose|bj: int, j: int|
                        s0.is_cell_of(bj, j) && a == #[trigger] s0.blocks@[bj].cell_addr(j)
                            && !s0.blocks@[bj].is_free(j);
                    if bj == bii {
                        assert(!nb.is_free(j)) by {
                            if nb.is_free(j) {
                                let k = choose|k: int|
                                    0 <= k < nb.free_seq().len() && nb.free_seq()[k] == j;
                                assert(ob.free_seq()[k] == j);
                            }
                        }
                    }
                    assert(s1.is_cell_of(bj, j) && a == s1.blocks@[bj].cell_addr(j));
                }
                assert(s1.is_allocated_cell(c as int)) by {
                    assert(!nb.is_free(ti)) by {
                        if nb.is_free(ti) {
                            let k = choose|k: int|
                                0 <= k < nb.free_seq().len() && nb.free_seq()[k] == ti;
                            assert(ob.free_seq()[k] == ti);
                            assert(ob.free_seq().no_duplicates());
                        }
                    }
                    assert(s1.is_cell_of(bii, ti) && c as int == s1.blocks@[bii].cell_addr(ti));
                }
            }
        }
        c
    }

    /// Map one fresh block, carve it for cells of `size` bytes with the
    /// chain link `next`, and append it to the space's block table.
    /// Returns the block's base address and table index, or a zero base
    /// when the reserved range is exhausted.  The fresh block's cells are
    /// all free and unmarked, so the allocated set is unchanged.
    pub fn add_block(&mut self, tls: u64, size: u64, next: Address) -> (r: (Address, usize))
        requires
            old(self).wf(),
            16 <= size <= BYTES_IN_BLOCK - 24,
            size % 8 == 0,
        ensures
            final(self).wf(),
            r.0 == 0 <==> old(self).cursor + BYTES_IN_BLOCK > old(self).start + old(self).extent,
            r.0 == 0 ==> *final(self) == *old(self),
            r.0 != 0 ==> {
                &&& r.1 == old(self).blocks@.len()
                &&& final(self).blocks@.len() == old(self).blocks@.len() + 1
                &&& forall|bj: int|
                    0 <= bj < old(self).blocks@.len() ==> final(self).blocks@[bj] == old(self).blocks@[bj]
                &&& ({
                    let nb = final(self).blocks@[r.1 as int];
                    &&& nb.base == r.0
                    &&& nb.data.size == size
                    &&& nb.data.next == next
                    &&& nb.trailer_addr() == r.0 + BYTES_IN_BLOCK - 24
                    &&& nb.free_seq() =~= Seq::new(nb.n_cells() as nat, |i: int| i)
                    &&& nb.n_cells() >= 1
                })
                &&& final(self).spec_allocated() =~= old(self).spec_allocated()
                &&& final(self).start == old(self).start
                &&& final(self).extent == old(self).extent
                &&& final(self).name == old(self).name
                &&& final(self).initialized == old(self).initialized
                &&& final(self).local_specs == old(self).local_specs
                &&& final(self).cursor == old(self).cursor + BYTES_IN_BLOCK
                &&& forall|k: int|
                    0 <= k < old(self).mark_bits@.len() ==> final(self).mark_bits@[k] == old(self).mark_bits@[k]
                &&& forall|k: int|
                    old(self).mark_bits@.len() <= k < final(self).mark_bits@.len() ==> final(self).mark_bits@[k] == false
            },
    {
        let ghost s0 = *old(self);
        let base = self.acquire(tls, crate::PAGES_IN_BLOCK);
        if base == 0 {
            return (0, 0);
        }
        proof {
            assert(self.cursor == s0.cursor + BYTES_IN_BLOCK);
            assert(base + BYTES_IN_BLOCK <= u64::MAX);
        }
        let b = Block::carve(base, size, next);
        let bi = self.blocks.len();
        self.blocks.push(b);
        proof {
            let s1 = self;
            let bii = bi as int;
            let nb = s1.blocks@[bii];
            assert(s1.blocks@ =~= s0.blocks@.push(nb));
            nb.lemma_cell_geometry();
            // the new block's cells lie in the freshly mapped extent, above
            // every previously mapped byte
            assert forall|i: int| 0 <= i < nb.n_cells() implies s1.bit_index(
                #[trigger] nb.cell_addr(i),
            ) >= s0.mark_bits@.len() && s1.in_meta_range(nb.cell_addr(i)) && 0 <= s1.bit_index(
                nb.cell_addr(i),
            ) < s1.mark_bits@.len() by {
                nb.lemma_cell_addr_in_block(i);
                let a = nb.cell_addr(i);
                assert(s0.cursor <= a);
                assert(a + 16 <= s1.cursor);
                lemma_div_is_ordered(s0.cursor - s0.start, a - s0.start, 16);
                lemma_div_is_ordered(0, a - s1.start, 16);
                lemma_bit_index_strict(a - s1.start, s1.cursor - s1.start);
                assert((s0.cursor - s0.start) as int / 16 == s0.mark_bits@.len());
            }
            assert forall|bj: int, j: int| s1.is_cell_of(bj, j) implies ((
            #[trigger] s1.blocks@[bj].cell_addr(j)) >= 0 && (s1.blocks@[bj].is_free(j)
                <==> !s1.alloc_at(s1.blocks@[bj].cell_addr(j)))) by {
                if bj < bii {
                    s0.lemma_cell_in_range(bj, j);
                    assert(s1.blocks@[bj] == s0.blocks@[bj]);
                } else {
                    assert(bj == bii);
                    assert(nb.free_seq()[j] == j);
                    assert(nb.is_free(j));
                }
            }
            assert forall|idx2: int|
                0 <= idx2 < s1.mark_bits@.len() && #[trigger] s1.mark_bits@[idx2] implies s1
                .alloc_bits@[idx2] && s1.is_cell_bit_index(idx2) by {
                assert(idx2 < s0.mark_bits@.len() && s0.mark_bits@[idx2]);
                let (bj, j) = choose|bj: int, j: int|
                    s0.is_cell_of(bj, j) && s0.bit_index(#[trigger] s0.blocks@[bj].cell_addr(j))
                        == idx2;
                assert(s1.is_cell_of(bj, j) && s1.bit_index(s1.blocks@[bj].cell_addr(j)) == idx2);
            }
            assert(s1.spec_allocated() =~= s0.spec_allocated()) by {
                assert forall|a: int| s1.is_allocated_cell(a) implies s0.is_allocated_cell(a) by {
                    let (bj, j) = choose|bj: int, j: int|
                        s1.is_cell_of(bj, j) && a == #[trigger] s1.blocks@[bj].cell_addr(j)
                            && !s1.blocks@[bj].is_free(j);
                    if bj == bii {
                        assert(nb.free_seq()[j] == j);
                    }
                }
                assert forall|a: int| s0.is_allocated_cell(a) implies s1.is_allocated_cell(a) by {
                    let (bj, j) = choose|bj: int, j: int|
                        s0.is_cell_of(bj, j) && a == #[trigger] s0.blocks@[bj].cell_addr(j)
                            && !s0.blocks@[bj].is_free(j);
                    assert(s1.is_cell_of(bj, j) && a == s1.blocks@[bj].cell_addr(j));
                }
            }
        }
        (base, bi)
    }

    /// Test-and-set the mark bit of a reachable object: the tracer's
    /// entry onto the shared metadata.  Returns whether the object was
    /// already marked; marking an allocated cell keeps every invariant,
    /// and nothing else changes.
    pub fn mark_object(&mut self, object: Address) -> (was_marked: bool)
        requires
            old(self).wf(),
            old(self).is_allocated_cell(object as int),
            old(self).alloc_at(object as int),
            old(self).in_meta_range(object as int),
        ensures
            final(self).wf(),
            was_marked == old(self).marked_at(object as int),
            final(self).mark_bits@ =~= old(self).mark_bits@.update(
                old(self).bit_index(object as int),
                true,
            ),
            final(self).alloc_bits@ == old(self).alloc_bits@,
            final(self).blocks@ == old(self).blocks@,
            final(self).cursor == old(self).cursor,
            final(self).start == old(self).start,
            final(self).extent == old(self).extent,
            final(self).name == old(self).name,
            final(self).initialized == old(self).initialized,
            final(self).local_specs == old(self).local_specs,
            final(self).spec_allocated() =~= old(self).spec_allocated(),
    {
        let ghost s0 = *old(self);
        proof {
            let (bj, j) = choose|bj: int, j: int|
                s0.is_cell_of(bj, j) && object as int == #[trigger] s0.blocks@[bj].cell_addr(j)
                    && !s0.blocks@[bj].is_free(j);
            s0.lemma_cell_in_range(bj, j);
            lemma_div_is_ordered(0, object as int - s0.start, 16);
            lemma_bit_index_strict(object as int - s0.start, s0.cursor - s0.start);
        }
        let idx = ((object - self.start) / 16) as usize;
        let was_marked = self.mark_bits.get_bit(idx);
        self.mark_bits.set_bit(idx, true);
        proof {
            let s1 = self;
            let cidx = s0.bit_index(object as int);
            assert forall|idx2: int|
                0 <= idx2 < s1.mark_bits@.len() && #[trigger] s1.mark_bits@[idx2] implies s1
                .alloc_bits@[idx2] && s1.is_cell_bit_index(idx2) by {
                if idx2 == cidx {
                    let (bj, j) = choose|bj: int, j: int|
                        s0.is_cell_of(bj, j) && object as int == #[trigger] s0.blocks@[bj].cell_addr(
                            j,
                        ) && !s0.blocks@[bj].is_free(j);
                    assert(s1.is_cell_of(bj, j) && s1.bit_index(s1.blocks@[bj].cell_addr(j))
                        == idx2);
                } else {
                    assert(s0.mark_bits@[idx2]);
                    let (bj, j) = choose|bj: int, j: int|
                        s0.is_cell_of(bj, j) && s0.bit_index(#[trigger] s0.blocks@[bj].cell_addr(j))
                            == idx2;
                    assert(s1.is_cell_of(bj, j) && s1.bit_index(s1.blocks@[bj].cell_addr(j))
                        == idx2);
                }
            }
        }
        was_marked
    }
}

/// Whether metadata index `k` belongs to one of `b`'s cells.
pub open spec fn cell_idx_of_block(b: Block, start: int, k: int) -> bool {
    exists|i: int|
        0 <= i < b.n_cells() && (#[trigger] b.cell_addr(i) - start) / 16 == k
}

/// Sweep one block, cell by cell: a cell whose allocation bit is set and
/// whose mark bit is set survives — its mark is cleared for the next
/// cycle and it stays allocated; a cell whose allocation bit is set but
/// whose mark bit is clear is unreachable — it is pushed back onto the
/// block's free list and its allocation bit is cleared; a cell already
/// free is left alone.  Metadata outside this block's cells is untouched.
fn sweep_block(b: &mut Block, mark_bits: &mut Bitmap, alloc_bits: &mut Bitmap, start: Address)
    requires
        old(b).wf(),
        start <= old(b).base,
        old(mark_bits)@.len() == old(alloc_bits)@.len(),
        forall|i: int|
            0 <= i < old(b).n_cells() ==> 0 <= (#[trigger] old(b).cell_addr(i) - start) / 16 < old(mark_bits)@.len(),
        forall|i: int|
            0 <= i < old(b).n_cells() ==> (old(b).is_free(i) <==> !old(alloc_bits)@[(
            #[trigger] old(b).cell_addr(i) - start) / 16]),
        forall|k: int|
            0 <= k < old(mark_bits)@.len() && #[trigger] old(mark_bits)@[k] ==> old(alloc_bits)@[k],
    ensures
        final(b).wf(),
        final(b).base == old(b).base,
        final(b).data.size == old(b).data.size,
        final(b).data.next == old(b).data.next,
        final(mark_bits)@.len() == old(mark_bits)@.len(),
        final(alloc_bits)@.len() == old(alloc_bits)@.len(),
        forall|k: int|
            0 <= k < old(mark_bits)@.len() && !cell_idx_of_block(*old(b), start as int, k) ==> final(mark_bits)@[k] == old(mark_bits)@[k] && final(alloc_bits)@[k] == old(alloc_bits)@[k],
        forall|k: int|
            0 <= k < old(mark_bits)@.len() && #[trigger] final(mark_bits)@[k] ==> old(mark_bits)@[k],
        forall|i: int|
            0 <= i < old(b).n_cells() ==> {
                let k = (#[trigger] old(b).cell_addr(i) - start) / 16;
                &&& (old(alloc_bits)@[k] && old(mark_bits)@[k] ==> final(alloc_bits)@[k] && !final(mark_bits)@[k] && !final(b).is_free(i))
                &&& (old(alloc_bits)@[k] && !old(mark_bits)@[k] ==> !final(alloc_bits)@[k]
                    && final(b).is_free(i))
                &&& (!old(alloc_bits)@[k] ==> !final(alloc_bits)@[k] && final(b).is_free(i))
                &&& !final(mark_bits)@[k]
                &&& (final(b).is_free(i) <==> !final(alloc_bits)@[k])
            },
    {
        let ghost b0 = *old(b);
        let ghost len = old(mark_bits)@.len() as int;
        proof {
            b0.lemma_cell_geometry();
        }
        let n_wide = (crate::BYTES_IN_BLOCK - crate::BLOCK_DATA_BYTES) / b.data.size;
        let n = n_wide as usize;
        let size = b.data.size;
        let base = b.base;
        let mut j: usize = 0;
        while j < n
            invariant
                b.wf(),
                b0.wf(),
                n <= 4094,
                old(mark_bits)@.len() == len,
                old(alloc_bits)@.len() == len,
                b.base == b0.base,
                b.data.size == b0.data.size,
                b.data.next == b0.data.next,
                b.n_cells() == b0.n_cells(),
                n == b0.n_cells(),
                size == b0.data.size,
                base == b0.base,
                start <= b0.base,
                j <= n,
                mark_bits@.len() == len,
                alloc_bits@.len() == len,
                forall|i: int|
                    0 <= i < b0.n_cells() ==> 0 <= (#[trigger] b0.cell_addr(i) - start) / 16 < len,
                forall|k: int|
                    0 <= k < len && !cell_idx_of_block(b0, start as int, k) ==> mark_bits@[k]
                        == old(mark_bits)@[k] && alloc_bits@[k] == old(alloc_bits)@[k],
                forall|k: int|
                    0 <= k < len && #[trigger] mark_bits@[k] ==> old(mark_bits)@[k],
                forall|k: int|
                    0 <= k < len && #[trigger] old(mark_bits)@[k] ==> old(alloc_bits)@[k],
                forall|i: int|
                    j <= i < b0.n_cells() ==> mark_bits@[(#[trigger] b0.cell_addr(i) - start) / 16]
                        == old(mark_bits)@[(b0.cell_addr(i) - start) / 16] && alloc_bits@[(
                    b0.cell_addr(i) - start) / 16] == old(alloc_bits)@[(b0.cell_addr(i) - start)
                        / 16] && b.is_free(i) == b0.is_free(i),
                forall|i: int|
                    0 <= i < j ==> {
                        let k = (#[trigger] b0.cell_addr(i) - start) / 16;
                        &&& (old(alloc_bits)@[k] && old(mark_bits)@[k] ==> alloc_bits@[k]
                            && !mark_bits@[k] && !b.is_free(i))
                        &&& (old(alloc_bits)@[k] && !old(mark_bits)@[k] ==> !alloc_bits@[k]
                            && b.is_free(i))
                        &&& (!old(alloc_bits)@[k] ==> !alloc_bits@[k] && b.is_free(i))
                        &&& !mark_bits@[k]
                    },
                forall|i: int|
                    0 <= i < b0.n_cells() ==> (b.is_free(i) <==> !alloc_bits@[(
                    #[trigger] b0.cell_addr(i) - start) / 16]),
            decreases n - j,
        {
            let ghost bpre = *b;
            proof {
                b0.lemma_cell_addr_in_block(j as int);
                vstd::arithmetic::mul::lemma_mul_inequality(j as int, 4094, size as int);
                assert(b0.cell_addr(j as int) == base + (j as int) * size);
                lemma_div_is_ordered(0, b0.cell_addr(j as int) - start, 16);
            }
            let c = base + (j as u64) * size;
            let bl = mark_bits.len();
            let ghost ki = (b0.cell_addr(j as int) - start) / 16;
            proof {
                assert(c as int == b0.cell_addr(j as int));
                assert(((c - start) / 16) as int == ki);
                assert(0 <= ki < len);
                assert(bl as int == len);
            }
            let idx = ((c - start) / 16) as usize;
            proof {
                assert(idx as int == ki);
                assert(cell_idx_of_block(b0, start as int, ki));
                assert forall|i: int| 0 <= i < b0.n_cells() && i != j as int implies (
                #[trigger] b0.cell_addr(i) - start) / 16 != ki by {
                    if i < j as int {
                        b0.lemma_cell_addr_monotonic(i, j as int);
                        lemma_bit_index_strict(b0.cell_addr(i) - start, b0.cell_addr(j as int)
                            - start);
                    } else {
                        b0.lemma_cell_addr_monotonic(j as int, i);
                        lemma_bit_index_strict(b0.cell_addr(j as int) - start, b0.cell_addr(i)
                            - start);
                    }
                }
            }
            if alloc_bits.get_bit(idx) {
                if mark_bits.get_bit(idx) {
                    mark_bits.set_bit(idx, false);
                } else {
                    proof {
                        assert(!b.is_free(j as int));
                    }
                    b.push_cell(j);
                    alloc_bits.set_bit(idx, false);
                    proof {
                        assert forall|i: int| 0 <= i < b0.n_cells() && i != j as int implies b
                            .is_free(i) == bpre.is_free(i) by {
                            let nfs = b.free_seq();
                            let fs = bpre.free_seq();
                            assert(nfs == fs.push(j as int));
                            if bpre.is_free(i) {
                                let k = choose|k: int| 0 <= k < fs.len() && fs[k] == i;
                                assert(nfs[k] == i);
                            } else {
                                if b.is_free(i) {
                                    let k = choose|k: int| 0 <= k < nfs.len() && nfs[k] == i;
                                    assert(k < fs.len() || nfs[k] == j as int);
                                    if k < fs.len() {
                                        assert(fs[k] == i);
                                    }
                                }
                            }
                        }
                        assert(b.is_free(j as int)) by {
                            let nfs = b.free_seq();
                            assert(nfs[nfs.len() - 1] == j as int);
                        }
                    }
                }
            }
            j = j + 1;
        }
        proof {
            assert forall|i: int| 0 <= i < b0.n_cells() implies !mark_bits@[(
            #[trigger] b0.cell_addr(i) - start) / 16] by {}
        }
    }

impl MarkSweepSpace {
    /// Eager sweep of the whole space, block by block: every cell whose
    /// mark bit is set at sweep time stays allocated and has its mark
    /// cleared for the next cycle; every allocated cell without a mark is
    /// returned to its block's free list; cells already free are left
    /// alone.  After the sweep no mark bit is set anywhere.  Blocks are
    /// disjoint, so sweeping them one at a time touches no other block's
    /// metadata.
    pub fn eager_sweep(&mut self, tls: u64)
        requires
            old(self).wf(),
        ensures
            final(self).wf(),
            same_block_layout(old(self), final(self)),
            final(self).start == old(self).start,
            final(self).cursor == old(self).cursor,
            final(self).extent == old(self).extent,
            final(self).name == old(self).name,
            final(self).initialized == old(self).initialized,
            final(self).local_specs == old(self).local_specs,
            final(self).mark_bits@.len() == old(self).mark_bits@.len(),
            final(self).alloc_bits@.len() == old(self).alloc_bits@.len(),
            forall|k: int|
                0 <= k < final(self).mark_bits@.len() ==> !(#[trigger] final(self).mark_bits@[k]),
            forall|bi: int, i: int|
                old(self).is_cell_of(bi, i) ==> {
                    let a = #[trigger] old(self).blocks@[bi].cell_addr(i);
                    &&& (old(self).alloc_at(a) && old(self).marked_at(a) ==> final(self).alloc_at(a)
                        && !final(self).blocks@[bi].is_free(i))
                    &&& (old(self).alloc_at(a) && !old(self).marked_at(a) ==> !final(self).alloc_at(
                        a,
                    ) && final(self).blocks@[bi].is_free(i))
                    &&& (!old(self).alloc_at(a) ==> !final(self).alloc_at(a) && final(self).blocks@[bi].is_free(i))
                },
    {
        let ghost s0 = *old(self);
        let n = self.blocks.len();
        let mut bi: usize = 0;
        while bi < n
            invariant
                self.wf(),
                s0.wf(),
                bi <= n,
                n == self.blocks@.len(),
                n == s0.blocks@.len(),
                same_block_layout(&s0, self),
                self.start == s0.start,
                self.cursor == s0.cursor,
                self.extent == s0.extent,
                self.name == s0.name,
                self.initialized == s0.initialized,
                self.local_specs == s0.local_specs,
                self.mark_bits@.len() == s0.mark_bits@.len(),
                self.alloc_bits@.len() == s0.alloc_bits@.len(),
                forall|k: int|
                    0 <= k < self.mark_bits@.len() && #[trigger] self.mark_bits@[k]
                        ==> s0.mark_bits@[k],
                forall|k: int|
                    0 <= k < self.mark_bits@.len() && !s0.is_cell_bit_index(k)
                        ==> self.mark_bits@[k] == s0.mark_bits@[k] && self.alloc_bits@[k]
                        == s0.alloc_bits@[k],
                forall|bj: int|
                    bi <= bj < n ==> #[trigger] self.blocks@[bj] == s0.blocks@[bj],
                forall|bj: int, i: int|
                    bi <= bj < n && s0.is_cell_of(bj, i) ==> self.marked_at(
                        #[trigger] s0.blocks@[bj].cell_addr(i),
                    ) == s0.marked_at(s0.blocks@[bj].cell_addr(i)) && self.alloc_at(
                        s0.blocks@[bj].cell_addr(i),
                    ) == s0.alloc_at(s0.blocks@[bj].cell_addr(i)),
                forall|bj: int, i: int|
                    0 <= bj < bi && s0.is_cell_of(bj, i) ==> {
                        let a = #[trigger] s0.blocks@[bj].cell_addr(i);
                        &&& (s0.alloc_at(a) && s0.marked_at(a) ==> self.alloc_at(a)
                            && !self.blocks@[bj].is_free(i))
                        &&& (s0.alloc_at(a) && !s0.marked_at(a) ==> !self.alloc_at(a)
                            && self.blocks@[bj].is_free(i))
                        &&& (!s0.alloc_at(a) ==> !self.alloc_at(a) && self.blocks@[bj].is_free(i))
                        &&& !self.marked_at(a)
                    },
            decreases n - bi,
        {
            let ghost sp = *self;
            proof {
                assert forall|i: int|
                    0 <= i < sp.blocks@[bi as int].n_cells() implies 0 <= (
                #[trigger] sp.blocks@[bi as int].cell_addr(i) - sp.start) / 16
                    < sp.mark_bits@.len() by {
                    sp.lemma_cell_in_range(bi as int, i);
                }
            }
            let start = self.start;
            let mut b = self.blocks.remove(bi);
            sweep_block(&mut b, &mut self.mark_bits, &mut self.alloc_bits, start);
            self.blocks.insert(bi, b);
            proof {
                let bii = bi as int;
                let ob = sp.blocks@[bii];
                let nb = self.blocks@[bii];
                assert(self.blocks@ =~= sp.blocks@.update(bii, nb));
                // indices of other blocks' cells were untouched
                assert forall|bj: int, i: int|
                    s0.is_cell_of(bj, i) && bj != bii implies self.marked_at(
                    #[trigger] s0.blocks@[bj].cell_addr(i)) == sp.marked_at(
                    s0.blocks@[bj].cell_addr(i)) && self.alloc_at(s0.blocks@[bj].cell_addr(i))
                    == sp.alloc_at(s0.blocks@[bj].cell_addr(i)) by {
                    assert(sp.blocks@[bj].base == s0.blocks@[bj].base && sp.blocks@[bj].data.size
                        == s0.blocks@[bj].data.size);
                    assert(sp.blocks@[bj].cell_addr(i) == s0.blocks@[bj].cell_addr(i));
                    assert(sp.is_cell_of(bj, i));
                    sp.lemma_cell_in_range(bj, i);
                    let k = sp.bit_index(sp.blocks@[bj].cell_addr(i));
                    assert(!cell_idx_of_block(ob, sp.start as int, k)) by {
                        if cell_idx_of_block(ob, sp.start as int, k) {
                            let i2 = choose|i2: int|
                                0 <= i2 < ob.n_cells() && (#[trigger] ob.cell_addr(i2) - sp.start)
                                    / 16 == k;
                            sp.lemma_cell_bit_injective(bj, i, bii, i2);
                        }
                    }
                }
                // blocks other than the swept one kept their state
                assert forall|bj: int|
                    0 <= bj < n && bj != bii implies #[trigger] self.blocks@[bj]
                    == sp.blocks@[bj] by {}
                // indices never belonging to any cell were untouched
                assert forall|k: int|
                    0 <= k < self.mark_bits@.len() && !s0.is_cell_bit_index(k) implies self
                    .mark_bits@[k] == s0.mark_bits@[k] && self.alloc_bits@[k]
                    == s0.alloc_bits@[k] by {
                    assert(!cell_idx_of_block(ob, sp.start as int, k)) by {
                        if cell_idx_of_block(ob, sp.start as int, k) {
                            let i2 = choose|i2: int|
                                0 <= i2 < ob.n_cells() && (#[trigger] ob.cell_addr(i2) - sp.start)
                                    / 16 == k;
                            assert(s0.is_cell_of(bii, i2) && s0.bit_index(
                                s0.blocks@[bii].cell_addr(i2),
                            ) == k);
                        }
                    }
                }
                // the swept block's own cells: outcomes of the block sweep
                assert forall|i: int| s0.is_cell_of(bii, i) implies {
                    let a = #[trigger] s0.blocks@[bii].cell_addr(i);
                    &&& (s0.alloc_at(a) && s0.marked_at(a) ==> self.alloc_at(a) && !self
                        .blocks@[bii].is_free(i))
                    &&& (s0.alloc_at(a) && !s0.marked_at(a) ==> !self.alloc_at(a)
                        && self.blocks@[bii].is_free(i))
                    &&& (!s0.alloc_at(a) ==> !self.alloc_at(a) && self.blocks@[bii].is_free(i))
                    &&& !self.marked_at(a)
                    &&& (self.blocks@[bii].is_free(i) <==> !self.alloc_at(a))
                } by {
                    assert(ob.cell_addr(i) == s0.blocks@[bii].cell_addr(i));
                    sp.lemma_cell_in_range(bii, i);
                }
                // the space invariant survives the block sweep
                assert forall|bj: int, i: int| self.is_cell_of(bj, i) implies ((
                #[trigger] self.blocks@[bj].cell_addr(i)) >= 0 && (self.blocks@[bj].is_free(i)
                    <==> !self.alloc_at(self.blocks@[bj].cell_addr(i)))) by {
                    sp.lemma_cell_in_range(bj, i);
                    assert(s0.is_cell_of(bj, i));
                    assert(self.blocks@[bj].cell_addr(i) == s0.blocks@[bj].cell_addr(i));
                    if bj != bii {
                        assert(self.blocks@[bj] == sp.blocks@[bj]);
                        assert(self.alloc_at(s0.blocks@[bj].cell_addr(i)) == sp.alloc_at(
                            s0.blocks@[bj].cell_addr(i),
                        ));
                        assert(sp.blocks@[bj].cell_addr(i) == s0.blocks@[bj].cell_addr(i));
                    } else {
                        assert(s0.blocks@[bj].cell_addr(i) == ob.cell_addr(i));
                    }
                }
                assert forall|k: int|
                    0 <= k < self.mark_bits@.len() && #[trigger] self.mark_bits@[k] implies self
                    .alloc_bits@[k] && self.is_cell_bit_index(k) by {
                    assert(sp.mark_bits@[k]) by {
                        if cell_idx_of_block(ob, sp.start as int, k) {
                            let i2 = choose|i2: int|
                                0 <= i2 < ob.n_cells() && (#[trigger] ob.cell_addr(i2) - sp.start)
                                    / 16 == k;
                            sp.lemma_cell_in_range(bii, i2);
                        }
                    }
                    assert(s0.mark_bits@[k]);
                    assert(sp.alloc_bits@[k] && sp.is_cell_bit_index(k));
                    let (bj, j) = choose|bj: int, j: int|
                        sp.is_cell_of(bj, j) && sp.bit_index(
                            #[trigger] sp.blocks@[bj].cell_addr(j),
                        ) == k;
                    assert(self.is_cell_of(bj, j) && self.bit_index(self.blocks@[bj].cell_addr(j))
                        == k);
                    assert(self.alloc_bits@[k]) by {
                        if cell_idx_of_block(ob, sp.start as int, k) {
                            let i2 = choose|i2: int|
                                0 <= i2 < ob.n_cells() && (#[trigger] ob.cell_addr(i2) - sp.start)
                                    / 16 == k;
                            sp.lemma_cell_in_range(bii, i2);
                            assert(!self.mark_bits@[k]);
                        }
                    }
                }
            }
            bi = bi + 1;
        }
        proof {
            assert forall|k: int|
                0 <= k < self.mark_bits@.len() implies !(#[trigger] self.mark_bits@[k]) by {
                if self.mark_bits@[k] {
                    assert(s0.mark_bits@[k]);
                    assert(s0.is_cell_bit_index(k));
                    let (bj, j) = choose|bj: int, j: int|
                        s0.is_cell_of(bj, j) && s0.bit_index(
                            #[trigger] s0.blocks@[bj].cell_addr(j),
                        ) == k;
                    assert(!self.marked_at(s0.blocks@[bj].cell_addr(j)));
                }
            }
        }
    }
}

impl MarkSweepSpace {
    /// Trailers of distinct blocks are distinct, because blocks occupy
    /// disjoint extents in address order.
    pub proof fn lemma_trailer_unique(&self, bi1: int, bi2: int)
        requires
            self.wf(),
            0 <= bi1 < self.blocks@.len(),
            0 <= bi2 < self.blocks@.len(),
            bi1 != bi2,
        ensures
            self.blocks@[bi1].trailer_addr() != self.blocks@[bi2].trailer_addr(),
    {
    }

    /// Find the table index of the block whose trailer sits at `t`.  The
    /// caller knows, as ghost information, which block that is; the
    /// search recovers it as an executable index.
    pub fn block_index_of_trailer(&self, t: Address, Ghost(bi): Ghost<int>) -> (r: usize)
        requires
            self.wf(),
            0 <= bi < self.blocks@.len(),
            self.blocks@[bi].trailer_addr() == t,
        ensures
            r as int == bi,
    {
        let n = self.blocks.len();
        let mut j: usize = 0;
        while j < n
            invariant
                self.wf(),
                n == self.blocks@.len(),
                0 <= bi < self.blocks@.len(),
                self.blocks@[bi].trailer_addr() == t,
                j <= n,
                forall|jj: int| 0 <= jj < j ==> (#[trigger] self.blocks@[jj]).trailer_addr() != t,
            decreases n - j,
        {
            let base = self.blocks[j].base;
            if base + (BYTES_IN_BLOCK - crate::BLOCK_DATA_BYTES) == t {
                proof {
                    if j as int != bi {
                        self.lemma_trailer_unique(j as int, bi);
                    }
                }
                return j;
            }
            j = j + 1;
        }
        proof {
            assert(self.blocks@[bi].trailer_addr() != t);
        }
        0
    }
}

/// A multiple of a page is a multiple of the metadata granule.
proof fn lemma_mod_16_of_4096(x: int)
    requires
        x >= 0,
        x % 4096 == 0,
    ensures
        x % 16 == 0,
{
    lemma_fundamental_div_mod(x, 4096);
    let q = x / 4096;
    assert(4096 * q == 16 * (256 * q)) by (nonlinear_arith);
    vstd::arithmetic::div_mod::lemma_mod_multiples_basic(256 * q, 16);
    assert((256 * q) * 16 == 16 * (256 * q)) by (nonlinear_arith);
}

} // verus!
