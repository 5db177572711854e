//! The physical carving of a space's pages into fixed-capacity blocks.
//!
//! A block is a page-aligned, `BYTES_IN_BLOCK`-sized extent carved exactly
//! once, at acquisition time, for one cell size.  Its trailer header
//! (`BlockData`) keeps the weak link to the next block of the same size
//! class, the head of the block's intra-block free-cell list, and the cell
//! size the block was carved for.  While a cell is free, its last machine
//! word stores the address of the previous free cell, building a
//! singly-linked stack popped in LIFO order; `links` holds exactly those
//! trailing words, one per cell, and `free_cells` is the ghost image of
//! the stack they encode, as cell indices, bottom first (the head of the
//! list is the last element).

use vstd::prelude::*;
use vstd::arithmetic::div_mod::{
    lemma_fundamental_div_mod, lemma_fundamental_div_mod_converse,
};
use vstd::arithmetic::mul::lemma_mul_inequality;
use crate::{Address, BLOCK_DATA_BYTES, BYTES_IN_BLOCK, BYTES_IN_WORD};

verus! {

/// The trailer header written at the end of every carved block.
#[derive(Clone, Copy, Debug)]
pub struct BlockData {
    /// Trailer address of the next block of the same size class, or zero.
    pub next: Address,
    /// Head of this block's free-cell list, or zero if exhausted.
    pub free: Address,
    /// The cell size this block was carved for, in bytes.
    pub size: u64,
}

/// One carved block: its base address, its trailer header, and the
/// trailing pointer-slot of every cell.
pub struct Block {
    /// Base address of the block's extent.
    pub base: Address,
    /// The trailer header.
    pub data: BlockData,
    /// `links[i]` models the last machine word of cell `i`: the address of
    /// the previous free cell while cell `i` is on the free list.
    pub links: Vec<Address>,
    /// Ghost image of the free-cell stack the links encode: the indices of
    /// the free cells, bottom first; the trailer's `free` field holds the
    /// address of the last one.
    pub free_cells: Ghost<Seq<int>>,
}

impl Block {
    /// Number of cells the block was carved into.
    pub open spec fn n_cells(&self) -> int {
        (BYTES_IN_BLOCK - BLOCK_DATA_BYTES) as int / self.data.size as int
    }

    /// Address of the trailer header.
    pub open spec fn trailer_addr(&self) -> int {
        self.base + BYTES_IN_BLOCK - BLOCK_DATA_BYTES
    }

    /// Address of cell `i`.
    pub open spec fn cell_addr(&self, i: int) -> int {
        self.base + i * self.data.size
    }

    /// Whether `a` is the address of one of this block's cells.
    pub open spec fn is_cell(&self, a: int) -> bool {
        exists|i: int| 0 <= i < self.n_cells() && a == #[trigger] self.cell_addr(i)
    }

    /// Index of the cell holding address `a`.
    pub open spec fn cell_index(&self, a: int) -> int {
        (a - self.base) / self.data.size as int
    }

    /// The free-cell stack, as cell indices, bottom first.
    pub open spec fn free_seq(&self) -> Seq<int> {
        self.free_cells@
    }

    /// Whether cell `i` is on the free list.
    pub open spec fn is_free(&self, i: int) -> bool {
        self.free_seq().contains(i)
    }

    /// Cells of this block that are handed out: carved cells not on the
    /// free list, as indices.
    pub open spec fn allocated_cells(&self) -> Set<int> {
        Set::new(|i: int| 0 <= i < self.n_cells() && !self.free_seq().contains(i))
    }

    /// Sane geometry: a cell size that fits the block with room for the
    /// trailer, and a page-aligned, nonzero base that cannot overflow.
    pub open spec fn geom_wf(&self) -> bool {
        &&& 16 <= self.data.size <= (BYTES_IN_BLOCK - BLOCK_DATA_BYTES)
        &&& self.data.size % BYTES_IN_WORD == 0
        &&& self.base % 4096 == 0
        &&& 4096 <= self.base
        &&& self.base + BYTES_IN_BLOCK <= u64::MAX
    }

    /// Structural well-formedness: sane geometry, and the trailing words
    /// of the free cells encode exactly the ghost stack.
    pub open spec fn wf(&self) -> bool {
        &&& self.geom_wf()
        &&& self.links@.len() == self.n_cells()
        &&& forall|k: int| 0 <= k < self.free_seq().len() ==> 0 <= #[trigger] self.free_seq()[k]
            < self.n_cells()
        &&& self.data.free == if self.free_seq().len() == 0 {
            0
        } else {
            self.cell_addr(self.free_seq().last())
        }
        &&& forall|k: int|
            1 <= k < self.free_seq().len() ==> self.links@[#[trigger] self.free_seq()[k]]
                == self.cell_addr(self.free_seq()[k - 1])
        &&& self.free_seq().len() > 0 ==> self.links@[self.free_seq()[0]] == 0
        &&& self.free_seq().no_duplicates()
    }

    /// The cell count is between one and the count of minimum-size cells,
    /// and the carved cells all fit below the trailer.
    pub proof fn lemma_cell_geometry(&self)
        requires
            self.geom_wf(),
        ensures
            1 <= self.n_cells() <= 4094,
            self.n_cells() * self.data.size <= (BYTES_IN_BLOCK - BLOCK_DATA_BYTES),
    {
        let s = self.data.size as int;
        let payload = (BYTES_IN_BLOCK - BLOCK_DATA_BYTES) as int;
        lemma_fundamental_div_mod(payload, s);
        vstd::arithmetic::div_mod::lemma_mod_bound(payload, s);
        vstd::arithmetic::mul::lemma_mul_is_commutative(s, payload / s);
        assert(payload / s >= 1) by {
            if payload / s <= 0 {
                lemma_mul_inequality(payload / s, 0, s);
            }
        }
        assert(payload / s <= 4094) by {
            if payload / s > 4094 {
                lemma_mul_inequality(4095, payload / s, s);
                vstd::arithmetic::mul::lemma_mul_is_commutative(payload / s, s);
                lemma_mul_inequality(16, s, 4095);
                vstd::arithmetic::mul::lemma_mul_is_commutative(s, 4095);
            }
        }
    }

    /// Cell addresses grow strictly with the index, at cell-size strides.
    pub proof fn lemma_cell_addr_monotonic(&self, i: int, j: int)
        requires
            self.geom_wf(),
            0 <= i < j < self.n_cells(),
        ensures
            self.cell_addr(i) + self.data.size <= self.cell_addr(j),
    {
        let s = self.data.size as int;
        lemma_mul_inequality(i + 1, j, s);
        assert((i + 1) * s == i * s + s) by (nonlinear_arith);
    }

    /// A cell address maps back to its index.
    pub proof fn lemma_cell_index_inverse(&self, i: int)
        requires
            self.geom_wf(),
            0 <= i < self.n_cells(),
        ensures
            self.cell_index(self.cell_addr(i)) == i,
            (self.cell_addr(i) - self.base) % self.data.size as int == 0,
    {
        lemma_fundamental_div_mod_converse(i * self.data.size as int, self.data.size as int, i, 0);
    }

    /// Every cell address lies inside the block, below the trailer, is
    /// word-aligned and nonzero.
    pub proof fn lemma_cell_addr_in_block(&self, i: int)
        requires
            self.geom_wf(),
            0 <= i < self.n_cells(),
        ensures
            self.base <= self.cell_addr(i),
            self.cell_addr(i) + self.data.size <= self.trailer_addr(),
            self.cell_addr(i) % BYTES_IN_WORD as int == 0,
            self.cell_addr(i) != 0,
    {
        self.lemma_cell_geometry();
        assert(i * self.data.size >= 0) by {
            lemma_mul_inequality(0, i, self.data.size as int);
        }
        assert((i + 1) * self.data.size <= self.n_cells() * self.data.size) by {
            lemma_mul_inequality(i + 1, self.n_cells(), self.data.size as int);
        }
        assert((i + 1) * (self.data.size as int) == i * (self.data.size as int)
            + self.data.size as int) by (nonlinear_arith);
        assert(self.cell_addr(i) % BYTES_IN_WORD as int == 0) by {
            let s = self.data.size as int;
            assert(self.base % 4096 == 0 ==> self.base % 8 == 0) by {
                vstd::arithmetic::div_mod::lemma_mod_mod(self.base as int, 8, 512);
            }
            assert((i * s) % 8 == 0) by {
                let q = s / 8;
                assert(s == q * 8) by {
                    lemma_fundamental_div_mod(s, 8);
                }
                assert(i * (q * 8) == (i * q) * 8) by {
                    vstd::arithmetic::mul::lemma_mul_is_associative(i, q, 8);
                }
                vstd::arithmetic::div_mod::lemma_mod_multiples_basic(i * q, 8);
            }
            vstd::arithmetic::div_mod::lemma_add_mod_noop(self.base as int, i * s, 8);
        }
    }

    /// Distinct cells have distinct addresses.
    pub proof fn lemma_cell_addr_injective(&self, i: int, j: int)
        requires
            self.geom_wf(),
            0 <= i < self.n_cells(),
            0 <= j < self.n_cells(),
            i != j,
        ensures
            self.cell_addr(i) != self.cell_addr(j),
    {
        if i < j {
            self.lemma_cell_addr_monotonic(i, j);
        } else {
            self.lemma_cell_addr_monotonic(j, i);
        }
    }

    /// Carve a fresh extent at `base` into cells of `size` bytes: lay the
    /// cells out from the block base, chain each cell's trailing word to
    /// the previous cell, and head the free list at the last cell laid
    /// out, so allocation pops in LIFO order.  The resulting free chain
    /// holds every carved cell exactly once — exactly
    /// `(BYTES_IN_BLOCK - BLOCK_DATA_BYTES) / size` distinct cells.
    pub fn carve(base: Address, size: u64, next: Address) -> (b: Block)
        requires
            16 <= size <= BYTES_IN_BLOCK - BLOCK_DATA_BYTES,
            size % BYTES_IN_WORD == 0,
            base % 4096 == 0,
            4096 <= base,
            base + BYTES_IN_BLOCK <= u64::MAX,
        ensures
            b.wf(),
            b.base == base,
            b.data.size == size,
            b.data.next == next,
            b.n_cells() == (BYTES_IN_BLOCK - BLOCK_DATA_BYTES) as int / size as int,
            b.free_seq() =~= Seq::new(b.n_cells() as nat, |i: int| i),
            b.allocated_cells() =~= Set::<int>::empty(),
    {
        let n_cells_wide = (BYTES_IN_BLOCK - BLOCK_DATA_BYTES) / size;
        proof {
            let s = size as int;
            let payload = (BYTES_IN_BLOCK - BLOCK_DATA_BYTES) as int;
            lemma_fundamental_div_mod(payload, s);
            vstd::arithmetic::div_mod::lemma_mod_bound(payload, s);
            vstd::arithmetic::mul::lemma_mul_is_commutative(s, payload / s);
            assert(payload / s >= 1) by {
                if payload / s <= 0 {
                    lemma_mul_inequality(payload / s, 0, s);
                }
            }
            assert(payload / s <= 4094) by {
                if payload / s > 4094 {
                    lemma_mul_inequality(4095, payload / s, s);
                    vstd::arithmetic::mul::lemma_mul_is_commutative(payload / s, s);
                    lemma_mul_inequality(16, s, 4095);
                    vstd::arithmetic::mul::lemma_mul_is_commutative(s, 4095);
                }
            }
        }
        let n = n_cells_wide as usize;
        let mut links: Vec<Address> = Vec::new();
        let mut i: usize = 0;
        while i < n
            invariant
                i <= n,
                n == n_cells_wide,
                1 <= n_cells_wide <= 4094,
                n_cells_wide == (BYTES_IN_BLOCK - BLOCK_DATA_BYTES) as int / size as int,
                n_cells_wide * size <= BYTES_IN_BLOCK - BLOCK_DATA_BYTES,
                16 <= size,
                4096 <= base,
                base + BYTES_IN_BLOCK <= u64::MAX,
                links@.len() == i,
                forall|k: int|
                    0 <= k < i ==> #[trigger] links@[k] as int == if k == 0 {
                        0
                    } else {
                        base + (k - 1) * size
                    },
            decreases n - i,
        {
            if i == 0 {
                links.push(0);
            } else {
                proof {
                    lemma_mul_inequality(i as int - 1, n_cells_wide as int, size as int);
                    lemma_mul_inequality(0, i as int - 1, size as int);
                }
                links.push(base + (i as u64 - 1) * size);
            }
            i = i + 1;
        }
        proof {
            lemma_mul_inequality(n_cells_wide as int - 1, n_cells_wide as int, size as int);
            lemma_mul_inequality(0, n_cells_wide as int - 1, size as int);
        }
        let free = base + (n_cells_wide - 1) * size;
        let ghost n_int = (BYTES_IN_BLOCK - BLOCK_DATA_BYTES) as int / size as int;
        let b = Block {
            base,
            data: BlockData { next, free, size },
            links,
            free_cells: Ghost(Seq::new(n_int as nat, |i: int| i)),
        };
        proof {
            let fs = b.free_seq();
            assert(b.data.free == b.cell_addr(fs.last()));
            assert forall|k: int|
                1 <= k < fs.len() implies b.links@[#[trigger] fs[k]] == b.cell_addr(fs[k - 1]) by {
                assert(fs[k] == k);
            }
            assert(fs.no_duplicates());
            assert(b.allocated_cells() =~= Set::<int>::empty()) by {
                assert forall|i: int| 0 <= i < b.n_cells() implies fs.contains(i) by {
                    assert(fs[i] == i);
                }
            }
        }
        b
    }

    /// Pop one cell from the block's free list: return the head cell's
    /// address and redirect the trailer's `free` field to the address
    /// stored in that cell's trailing word.  Returns zero, changing
    /// nothing, when the block is exhausted.
    pub fn pop_cell(&mut self) -> (c: Address)
        requires
            old(self).wf(),
        ensures
            final(self).wf(),
            final(self).base == old(self).base,
            final(self).data.size == old(self).data.size,
            final(self).data.next == old(self).data.next,
            final(self).links@ == old(self).links@,
            old(self).free_seq().len() == 0 ==> c == 0 && *final(self) == *old(self),
            old(self).free_seq().len() > 0 ==> {
                &&& c as int == old(self).cell_addr(old(self).free_seq().last())
                &&& c != 0
                &&& final(self).free_seq() == old(self).free_seq().drop_last()
            },
    {
        let c = self.data.free;
        if c == 0 {
            proof {
                if self.free_seq().len() > 0 {
                    self.lemma_cell_addr_in_block(self.free_seq().last());
                }
            }
            return 0;
        }
        let ghost fs = self.free_seq();
        let ghost top = fs.last();
        proof {
            if fs.len() == 0 {
                assert(false);
            }
            self.lemma_cell_addr_in_block(top);
            self.lemma_cell_index_inverse(top);
        }
        let i = ((c - self.base) / self.data.size) as usize;
        let next_free = self.links[i];
        self.data.free = next_free;
        proof {
            self.free_cells@ = fs.drop_last();
        }
        proof {
            let nfs = self.free_seq();
            assert(nfs == fs.drop_last());
            if nfs.len() > 0 {
                assert(self.links@[fs[fs.len() - 1]] == self.cell_addr(fs[fs.len() - 2]));
            }
            assert(nfs.no_duplicates()) by {
                assert(forall|k1: int, k2: int|
                    0 <= k1 < nfs.len() && 0 <= k2 < nfs.len() && k1 != k2 ==> fs[k1] != fs[k2]);
            }
        }
        c
    }

    /// Push cell `i` back onto the block's free list: write the previous
    /// head into the cell's trailing word and make the cell the new head.
    /// This is the inverse of popping, used by the sweep to free a cell.
    pub fn push_cell(&mut self, i: usize)
        requires
            old(self).wf(),
            0 <= i < old(self).n_cells(),
            !old(self).free_seq().contains(i as int),
        ensures
            final(self).wf(),
            final(self).base == old(self).base,
            final(self).data.size == old(self).data.size,
            final(self).data.next == old(self).data.next,
            final(self).links@.len() == old(self).links@.len(),
            final(self).free_seq() == old(self).free_seq().push(i as int),
    {
        let ghost fs = self.free_seq();
        proof {
            self.lemma_cell_addr_in_block(i as int);
            self.lemma_cell_geometry();
            lemma_mul_inequality(i as int, 4094, self.data.size as int);
        }
        let c = self.base + (i as u64) * self.data.size;
        let prev = self.data.free;
        self.links[i] = prev;
        self.data.free = c;
        proof {
            self.free_cells@ = fs.push(i as int);
        }
        proof {
            let nfs = self.free_seq();
            assert forall|k: int|
                1 <= k < nfs.len() implies self.links@[#[trigger] nfs[k]] == self.cell_addr(
                nfs[k - 1],
            ) by {
                if k < fs.len() {
                    assert(nfs[k] == fs[k] && nfs[k - 1] == fs[k - 1]);
                    assert(fs[k] != i as int);
                } else {
                    assert(nfs[k] == i as int);
                    if fs.len() > 0 {
                        assert(nfs[k - 1] == fs.last());
                    }
                }
            }
            if nfs.len() > 0 && fs.len() > 0 {
                assert(nfs[0] == fs[0]);
                assert(fs[0] != i as int);
            }
            assert(nfs.no_duplicates()) by {
                assert forall|k1: int, k2: int|
                    0 <= k1 < nfs.len() && 0 <= k2 < nfs.len() && k1 != k2 implies nfs[k1]
                    != nfs[k2] by {
                    if k1 < fs.len() && k2 < fs.len() {
                        assert(fs.no_duplicates());
                    } else if k1 < fs.len() {
                        assert(nfs[k2] == i as int && !fs.contains(i as int));
                        assert(fs[k1] == nfs[k1]);
                        if nfs[k1] == i as int {
                            assert(fs.contains(i as int));
                        }
                    } else if k2 < fs.len() {
                        assert(nfs[k1] == i as int && !fs.contains(i as int));
                        assert(fs[k2] == nfs[k2]);
                        if nfs[k2] == i as int {
                            assert(fs.contains(i as int));
                        }
                    }
                }
            }
        }
    }
}

} // verus!
