//! Per-mutator-thread allocation front end: a size-class-indexed table of
//! block headers, fast-path cell popping, and slow-path block acquisition
//! and carving.
//!
//! Requested byte sizes are binned into dense size classes: one class per
//! word count up to eight words, then logarithmic bins with a 2-bit
//! sub-division within each octave, so classes grow near-geometrically.
//! Requests beyond the largest supported class must never reach this
//! allocator — the plan routes them to a different space — so the entry
//! points require a supported class rather than recovering from one.

use vstd::prelude::*;
use vstd::arithmetic::power2::pow2;
use vstd::arithmetic::div_mod::{
    lemma_fundamental_div_mod, lemma_fundamental_div_mod_converse, lemma_div_is_ordered,
    lemma_mod_bound,
};
use vstd::arithmetic::mul::lemma_mul_inequality;
use vstd::bits::{lemma_u64_shl_is_mul, lemma_u64_shr_is_div, lemma_u64_low_bits_mask_is_mod};
use crate::{Address, BLOCK_DATA_BYTES, BYTES_IN_BLOCK, BYTES_IN_WORD, PAGES_IN_BLOCK};
use crate::marksweepspace::{same_block_layout, MarkSweepSpace};

verus! {

/// log2 of the machine pointer size in bytes.
pub const MI_INTPTR_SHIFT: u64 = 3;

/// The machine pointer size in bytes.
pub const MI_INTPTR_SIZE: u64 = 8;

/// Number of bits in a machine pointer.
pub const MI_INTPTR_BITS: u64 = 64;

/// Largest object size, in bytes, the binning function is defined for;
/// larger requests belong to a different space entirely.
pub const MI_LARGE_OBJ_SIZE_MAX: u64 = 2097152;

/// `MI_LARGE_OBJ_SIZE_MAX` in machine words.
pub const MI_LARGE_OBJ_WSIZE_MAX: u64 = 262144;

/// Largest size class this free-list allocator serves directly: the
/// largest class whose cells, with their trailing pointer slot, still fit
/// a block beside its trailer.
pub const MAX_SIZE_CLASS: u8 = 47;

/// Largest request size, in bytes, mapping to a servable size class.
pub const MAX_DIRECT_ALLOC_BYTES: u64 = 57344;

/// A byte size as a machine-word count, rounded up.
pub open spec fn spec_wsize(size: int) -> int {
    (size + 7) / 8
}

/// Floor of the base-2 logarithm; zero for inputs below one.
pub open spec fn spec_log2(w: int) -> int
    decreases w,
{
    if w <= 1 {
        0
    } else {
        1 + spec_log2(w / 2)
    }
}

/// The size class a request of `size` bytes is binned to: word counts up
/// to eight get one class each; beyond that the class is four times the
/// octave of `w - 1` plus a 2-bit sub-division, offset so classes stay
/// dense.
pub open spec fn spec_bin(size: int) -> int {
    let w = spec_wsize(size);
    if w <= 1 {
        1
    } else if w <= 8 {
        w
    } else {
        let b = spec_log2(w - 1);
        4 * b + (w - 1) / pow2((b - 2) as nat) as int % 4 - 3
    }
}

/// The largest word count binned to class `c`.
pub open spec fn spec_class_max_wsize(c: int) -> int {
    if c <= 8 {
        if c < 1 {
            1
        } else {
            c
        }
    } else {
        let b = (c + 3) / 4;
        let m = (c + 3) % 4;
        pow2(b as nat) as int + (m + 1) * pow2((b - 2) as nat) as int
    }
}

/// The cell size blocks of class `c` are carved for: room for the largest
/// request of the class plus a pointer-sized free-list slot at the tail.
pub open spec fn spec_cell_size(c: int) -> int {
    spec_class_max_wsize(c) * 8 + 8
}

/// Powers of two grow with the exponent.
proof fn lemma_pow2_le(e1: nat, e2: nat)
    requires
        e1 <= e2,
    ensures
        pow2(e1) <= pow2(e2),
{
    if e1 < e2 {
        vstd::arithmetic::power2::lemma_pow2_strictly_increases(e1, e2);
    }
}

/// `spec_log2` grows monotonically.
pub proof fn lemma_log2_monotonic(x: int, y: int)
    requires
        x <= y,
    ensures
        spec_log2(x) <= spec_log2(y),
    decreases y,
{
    if y <= 1 {
    } else if x <= 1 {
        assert(spec_log2(x) == 0);
        assert(spec_log2(y) >= 0) by {
            lemma_log2_nonneg(y);
        }
    } else {
        lemma_div_is_ordered(x, y, 2);
        lemma_log2_monotonic(x / 2, y / 2);
    }
}

/// `spec_log2` is never negative.
pub proof fn lemma_log2_nonneg(x: int)
    ensures
        spec_log2(x) >= 0,
    decreases x,
{
    if x > 1 {
        lemma_log2_nonneg(x / 2);
    }
}

/// The defining bracket of the floor logarithm.
pub proof fn lemma_log2_bounds(x: int)
    requires
        x >= 1,
    ensures
        pow2(spec_log2(x) as nat) <= x < pow2((spec_log2(x) + 1) as nat),
    decreases x,
{
    vstd::arithmetic::power2::lemma2_to64();
    if x == 1 {
    } else {
        lemma_log2_bounds(x / 2);
        lemma_log2_nonneg(x / 2);
        let b = spec_log2(x / 2);
        assert(pow2((b + 1) as nat) == 2 * pow2(b as nat)) by {
            vstd::arithmetic::power2::lemma_pow2_adds(1, b as nat);
        }
        assert(pow2((b + 2) as nat) == 2 * pow2((b + 1) as nat)) by {
            vstd::arithmetic::power2::lemma_pow2_adds(1, (b + 1) as nat);
        }
        lemma_fundamental_div_mod(x, 2);
    }
}

/// Converse direction: the bracket pins the floor logarithm.
pub proof fn lemma_log2_unique(x: int, b: int)
    requires
        x >= 1,
        b >= 0,
        pow2(b as nat) <= x < pow2((b + 1) as nat),
    ensures
        spec_log2(x) == b,
{
    lemma_log2_bounds(x);
    lemma_log2_nonneg(x);
    let l = spec_log2(x);
    if l < b {
        lemma_pow2_le((l + 1) as nat, b as nat);
    }
    if l > b {
        lemma_pow2_le((b + 1) as nat, l as nat);
    }
}

/// In the logarithmic range the quotient of `w - 1` by a quarter octave
/// lands in `[4, 8)`, so the 2-bit sub-division is the quotient less four.
proof fn lemma_octave_quotient(w: int)
    requires
        w >= 9,
    ensures
        ({
            let b = spec_log2(w - 1);
            let p = pow2((b - 2) as nat) as int;
            &&& b >= 3
            &&& 4 <= (w - 1) / p < 8
            &&& (w - 1) / p % 4 == (w - 1) / p - 4
        }),
{
    let b = spec_log2(w - 1);
    let p = pow2((b - 2) as nat) as int;
    vstd::arithmetic::power2::lemma2_to64();
    assert(b >= 3) by {
        lemma_log2_monotonic(8, w - 1);
        reveal_with_fuel(spec_log2, 5);
        assert(spec_log2(8) == 3);
    }
    lemma_log2_bounds(w - 1);
    assert(pow2(b as nat) == 4 * p) by {
        vstd::arithmetic::power2::lemma_pow2_adds(2, (b - 2) as nat);
    }
    assert(pow2((b + 1) as nat) == 8 * p) by {
        vstd::arithmetic::power2::lemma_pow2_adds(3, (b - 2) as nat);
    }
    assert(p >= 1) by {
        vstd::arithmetic::power2::lemma_pow2_pos((b - 2) as nat);
    }
    assert((w - 1) / p >= 4) by {
        lemma_div_is_ordered(4 * p, w - 1, p);
        lemma_fundamental_div_mod_converse(4 * p, p, 4, 0);
    }
    assert((w - 1) / p < 8) by {
        lemma_div_is_ordered(w - 1, 8 * p - 1, p);
        lemma_fundamental_div_mod_converse(8 * p - 1, p, 7, p - 1);
    }
    let q = (w - 1) / p;
    lemma_fundamental_div_mod_converse(q, 4, 1, q - 4);
}

/// Binning monotonicity: a larger request is never binned to a smaller
/// size class, so `spec_bin` is a monotone, pure function of the size.
pub proof fn lemma_bin_monotonic(s1: int, s2: int)
    requires
        0 <= s1 <= s2,
    ensures
        spec_bin(s1) <= spec_bin(s2),
{
    let w1 = spec_wsize(s1);
    let w2 = spec_wsize(s2);
    lemma_div_is_ordered(s1 + 7, s2 + 7, 8);
    if w2 <= 8 {
    } else if w1 <= 8 {
        lemma_octave_quotient(w2);
        lemma_log2_nonneg(w2 - 1);
        let b2 = spec_log2(w2 - 1);
        assert(b2 >= 3);
    } else {
        lemma_octave_quotient(w1);
        lemma_octave_quotient(w2);
        let b1 = spec_log2(w1 - 1);
        let b2 = spec_log2(w2 - 1);
        lemma_log2_monotonic(w1 - 1, w2 - 1);
        if b1 == b2 {
            let p = pow2((b1 - 2) as nat) as int;
            vstd::arithmetic::power2::lemma_pow2_pos((b1 - 2) as nat);
            lemma_div_is_ordered(w1 - 1, w2 - 1, p);
        }
    }
}

/// Size classes stay within `[1, 68]` over the binning function's whole
/// domain.
pub proof fn lemma_bin_bounds(size: int)
    requires
        0 <= size <= MI_LARGE_OBJ_SIZE_MAX,
    ensures
        1 <= spec_bin(size) <= 68,
{
    let w = spec_wsize(size);
    if w > 8 {
        lemma_octave_quotient(w);
        let b = spec_log2(w - 1);
        assert(b <= 17) by {
            vstd::arithmetic::power2::lemma2_to64();
            lemma_log2_bounds(w - 1);
            if b >= 18 {
                lemma_pow2_le(18, b as nat);
            }
        }
    }
}

/// A request never exceeds the largest word count of its own class.
pub proof fn lemma_wsize_le_class_max(size: int)
    requires
        0 <= size <= MI_LARGE_OBJ_SIZE_MAX,
    ensures
        spec_wsize(size) <= spec_class_max_wsize(spec_bin(size)),
        8 * spec_wsize(size) >= size,
{
    lemma_fundamental_div_mod(size + 7, 8);
    lemma_mod_bound(size + 7, 8);
    let w = spec_wsize(size);
    if w > 8 {
        vstd::arithmetic::power2::lemma2_to64();
        lemma_octave_quotient(w);
        let b = spec_log2(w - 1);
        let p = pow2((b - 2) as nat) as int;
        vstd::arithmetic::power2::lemma_pow2_pos((b - 2) as nat);
        let q = (w - 1) / p;
        let c = spec_bin(size);
        assert(c == 4 * b + q - 4 - 3);
        assert((c + 3) / 4 == b && (c + 3) % 4 == q - 4) by {
            lemma_fundamental_div_mod_converse(4 * b + q - 4, 4, b, q - 4);
        }
        assert(pow2(b as nat) == 4 * p) by {
            vstd::arithmetic::power2::lemma_pow2_adds(2, (b - 2) as nat);
        }
        assert(w - 1 < (q + 1) * p) by {
            lemma_fundamental_div_mod(w - 1, p);
            lemma_mod_bound(w - 1, p);
            assert((q + 1) * p == q * p + p) by (nonlinear_arith);
            assert(p * q == q * p) by (nonlinear_arith);
        }
        assert(spec_class_max_wsize(c) == 4 * p + (q - 3) * p);
        assert((q - 3) * p == q * p - 3 * p) by (nonlinear_arith);
        assert((q + 1) * p == q * p + p) by (nonlinear_arith);
    }
}

/// Cell sizes of the servable classes fit a block beside its trailer.
pub proof fn lemma_cell_size_bounds(c: int)
    requires
        1 <= c <= MAX_SIZE_CLASS,
    ensures
        16 <= spec_cell_size(c) <= 57352,
        spec_cell_size(c) % 8 == 0,
    {
    vstd::arithmetic::power2::lemma2_to64();
    if c <= 8 {
    } else {
        let b = (c + 3) / 4;
        let m = (c + 3) % 4;
        assert(b <= 12 && b >= 3) by {
            lemma_fundamental_div_mod(c + 3, 4);
            lemma_mod_bound(c + 3, 4);
        }
        assert(m <= 3 && m >= 0) by {
            lemma_mod_bound(c + 3, 4);
        }
        assert(4 * b + m == c + 3) by {
            lemma_fundamental_div_mod(c + 3, 4);
        }
        assert((m + 1) * pow2((b - 2) as nat) as int >= 1) by {
            vstd::arithmetic::power2::lemma_pow2_pos((b - 2) as nat);
            lemma_mul_inequality(1, m + 1, pow2((b - 2) as nat) as int);
        }
        if b == 12 {
            assert(m <= 2);
            assert(pow2(12) == 4096 && pow2(10) == 1024);
            assert((m + 1) * 1024 <= 3 * 1024) by (nonlinear_arith)
                requires m <= 2;
        } else {
            assert(pow2(b as nat) <= 2048 && pow2((b - 2) as nat) <= 512) by {
                lemma_pow2_le(b as nat, 11);
                lemma_pow2_le((b - 2) as nat, 9);
                assert(pow2(11) == 2048 && pow2(9) == 512);
            }
            assert((m + 1) * pow2((b - 2) as nat) as int <= 4 * 512) by {
                lemma_mul_inequality(m + 1, 4, pow2((b - 2) as nat) as int);
                lemma_mul_inequality(pow2((b - 2) as nat) as int, 512, 4);
                assert(4 * pow2((b - 2) as nat) as int == pow2((b - 2) as nat) as int * 4) by (nonlinear_arith);
            }
        }
    }
    assert(spec_cell_size(c) % 8 == 0) by {
        let x = spec_class_max_wsize(c);
        assert(x * 8 + 8 == (x + 1) * 8) by (nonlinear_arith);
        vstd::arithmetic::div_mod::lemma_mod_multiples_basic(x + 1, 8);
    }
}


/// The boundary of the servable classes in request bytes: a request is
/// binned at or below `MAX_SIZE_CLASS` exactly when it is at most
/// `MAX_DIRECT_ALLOC_BYTES`.
pub proof fn lemma_bin_le_max_iff(size: int)
    requires
        0 <= size <= MI_LARGE_OBJ_SIZE_MAX,
    ensures
        spec_bin(size) <= MAX_SIZE_CLASS <==> size <= MAX_DIRECT_ALLOC_BYTES,
{
    vstd::arithmetic::power2::lemma2_to64();
    assert(spec_bin(57344) == 47) by {
        assert(spec_wsize(57344) == 7168);
        lemma_log2_unique(7167, 12);
        assert((7167int) / 1024 == 6) by {
            lemma_fundamental_div_mod_converse(7167, 1024, 6, 1023);
        }
    }
    assert(spec_bin(57345) == 48) by {
        assert(spec_wsize(57345) == 7169);
        lemma_log2_unique(7168, 12);
        assert((7168int) / 1024 == 7) by {
            lemma_fundamental_div_mod_converse(7168, 1024, 7, 0);
        }
    }
    if size <= MAX_DIRECT_ALLOC_BYTES {
        lemma_bin_monotonic(size, 57344);
    } else {
        lemma_bin_monotonic(57345, size);
    }
}

/// Floor of the base-2 logarithm of a nonzero word, by repeated halving.
fn floor_log2(w: u64) -> (b: u64)
    requires
        1 <= w,
    ensures
        b == spec_log2(w as int),
        b <= 63,
{
    let mut x = w;
    let mut b: u64 = 0;
    proof {
        vstd::arithmetic::power2::lemma2_to64();
    }
    while x > 1
        invariant
            1 <= x <= w,
            b <= 63,
            spec_log2(w as int) == b + spec_log2(x as int),
            pow2(b as nat) * x <= w,
        decreases x,
    {
        proof {
            lemma_log2_nonneg(x as int / 2);
            assert(pow2((b + 1) as nat) == 2 * pow2(b as nat)) by {
                vstd::arithmetic::power2::lemma2_to64();
                vstd::arithmetic::power2::lemma_pow2_adds(1, b as nat);
            }
            assert(pow2((b + 1) as nat) * (x as int / 2) <= pow2(b as nat) * x) by {
                lemma_fundamental_div_mod(x as int, 2);
                lemma_mod_bound(x as int, 2);
                assert((2 * pow2(b as nat)) * (x as int / 2) == pow2(b as nat) * (2 * (x as int
                    / 2))) by (nonlinear_arith);
                lemma_mul_inequality(2 * (x as int / 2), x as int, pow2(b as nat) as int);
                assert(pow2(b as nat) as int * (2 * (x as int / 2)) == (2 * (x as int / 2)) * (
                pow2(b as nat) as int)) by (nonlinear_arith);
                assert(pow2(b as nat) as int * x == x * (pow2(b as nat) as int))
                    by (nonlinear_arith);
            }
            assert(b + 1 <= 63) by {
                if b >= 63 {
                    vstd::arithmetic::power2::lemma2_to64_rest();
                    lemma_pow2_le(63, b as nat);
                    assert(pow2(b as nat) * x >= pow2(b as nat) * 2) by {
                        lemma_mul_inequality(2, x as int, pow2(b as nat) as int);
                        assert(pow2(b as nat) as int * 2 == 2 * pow2(b as nat) as int)
                            by (nonlinear_arith);
                        assert(pow2(b as nat) as int * x == x * pow2(b as nat) as int)
                            by (nonlinear_arith);
                    }
                }
            }
        }
        x = x / 2;
        b = b + 1;
    }
    b
}

/// Per-mutator-thread free-list allocator state: the thread it belongs
/// to, and a size-class-indexed table holding the trailer address of the
/// head block of each class's chain (zero for an empty chain).
pub struct FreeListAllocator {
    /// Opaque identifier of the owning mutator thread.
    pub tls: u64,
    /// `blocks_direct[c]` is the trailer address of the head block of size
    /// class `c`'s chain, or zero.
    pub blocks_direct: Vec<Address>,
    /// Ghost image of each class's block chain: the indices, into the
    /// owning space's block table, of the chain's blocks in chain order.
    pub chains: Ghost<Seq<Seq<int>>>,
}

impl FreeListAllocator {
    /// Align a byte size to a size in machine words.
    pub fn _mi_wsize_from_size(size: usize) -> (w: usize)
        requires
            size <= MI_LARGE_OBJ_SIZE_MAX,
        ensures
            w == spec_wsize(size as int),
    {
        (size + (MI_INTPTR_SIZE as usize - 1)) / MI_INTPTR_SIZE as usize
    }

    /// Bin a requested byte size to its dense size class.  Sizes beyond
    /// `MI_LARGE_OBJ_SIZE_MAX` must never be binned: the plan routes them
    /// to another space, and handing one to the allocator is a fatal
    /// contract violation, not a runtime condition.
    pub fn _mi_bin(size: usize) -> (bin: u8)
        requires
            size <= MI_LARGE_OBJ_SIZE_MAX,
        ensures
            bin as int == spec_bin(size as int),
            1 <= bin <= 68,
    {
        proof {
            lemma_bin_bounds(size as int);
        }
        let wsize: usize = Self::_mi_wsize_from_size(size);
        let bin: u8;
        if wsize <= 1 {
            bin = 1;
        } else if wsize <= 8 {
            bin = wsize as u8;
        } else {
            let w: u64 = wsize as u64 - 1;
            let b: u64 = floor_log2(w);
            proof {
                lemma_octave_quotient(wsize as int);
                vstd::arithmetic::power2::lemma_pow2_pos((b - 2) as nat);
                lemma_u64_shr_is_div(w, (b - 2) as u64);
                lemma_u64_low_bits_mask_is_mod(w >> ((b - 2) as u64), 2);
                vstd::bits::lemma_low_bits_mask_values();
                assert(pow2(2) == 4) by {
                    vstd::arithmetic::power2::lemma2_to64();
                }
                lemma_u64_shl_is_mul(b, 2);
            }
            let m: u64 = (w >> (b - 2)) & 3;
            bin = (((b << 2) + m) - 3) as u8;
        }
        bin
    }

    /// The cell size blocks of class `c` are carved for.
    pub fn class_cell_size(c: u8) -> (r: u64)
        requires
            1 <= c <= MAX_SIZE_CLASS,
        ensures
            r as int == spec_cell_size(c as int),
            16 <= r <= 57352,
            r % 8 == 0,
    {
        proof {
            lemma_cell_size_bounds(c as int);
        }
        if c <= 8 {
            (c as u64) * 8 + 8
        } else {
            let cc = c as u64 + 3;
            let b = cc / 4;
            let m = cc % 4;
            proof {
                assert(3 <= b <= 12) by {
                    lemma_fundamental_div_mod(cc as int, 4);
                    lemma_mod_bound(cc as int, 4);
                }
                vstd::arithmetic::power2::lemma2_to64();
                lemma_pow2_le(b as nat, 12);
                lemma_pow2_le((b - 2) as nat, 10);
                lemma_u64_shl_is_mul(1, b);
                lemma_u64_shl_is_mul(1, (b - 2) as u64);
            }
            ((1u64 << b) + (m + 1) * (1u64 << (b - 2))) * 8 + 8
        }
    }
}


impl FreeListAllocator {
    /// The block chain of size class `c`, as indices into the space's
    /// block table, head first.
    pub open spec fn chain(&self, c: int) -> Seq<int> {
        self.chains@[c]
    }

    /// Chain `c` is sound against `space`: the direct-mapped table entry
    /// is the head block's trailer address (zero for an empty chain),
    /// every chain member is a block of the space carved for exactly this
    /// class's cell size, each block's `next` field is the trailer of its
    /// successor, and the last block ends the chain with zero.
    pub open spec fn chain_wf(&self, space: &MarkSweepSpace, c: int) -> bool {
        let ch = self.chains@[c];
        &&& self.blocks_direct@[c] as int == if ch.len() == 0 {
            0
        } else {
            space.blocks@[ch[0]].trailer_addr()
        }
        &&& forall|k: int| 0 <= k < ch.len() ==> 0 <= #[trigger] ch[k] < space.blocks@.len()
        &&& forall|k: int|
            0 <= k < ch.len() ==> space.blocks@[#[trigger] ch[k]].data.size == spec_cell_size(c)
        &&& forall|k: int|
            0 <= k < ch.len() - 1 ==> space.blocks@[#[trigger] ch[k]].data.next as int
                == space.blocks@[ch[k + 1]].trailer_addr()
        &&& ch.len() > 0 ==> space.blocks@[ch[ch.len() - 1]].data.next == 0
    }

    /// The allocator is sound against `space`: one table entry and one
    /// chain per size class, each chain well formed.
    pub open spec fn wf(&self, space: &MarkSweepSpace) -> bool {
        &&& self.blocks_direct@.len() == MAX_SIZE_CLASS + 1
        &&& self.chains@.len() == MAX_SIZE_CLASS + 1
        &&& forall|c: int| 0 <= c <= MAX_SIZE_CLASS ==> #[trigger] self.chain_wf(space, c)
    }

    /// No block of chain `c` has a free cell left.
    pub open spec fn chain_exhausted(&self, space: &MarkSweepSpace, c: int) -> bool {
        forall|k: int|
            0 <= k < self.chains@[c].len()
                ==> space.blocks@[#[trigger] self.chains@[c][k]].free_seq().len() == 0
    }

    /// `a` is a cell of some block of `space` carved for class `c`.
    pub open spec fn cell_of_class(space: &MarkSweepSpace, c: int, a: int) -> bool {
        exists|bj: int|
            0 <= bj < space.blocks@.len() && (#[trigger] space.blocks@[bj]).data.size
                == spec_cell_size(c) && space.blocks@[bj].is_cell(a)
    }

    /// Chain soundness only reads block geometry, so any operation that
    /// keeps the block layout keeps the allocator sound.
    pub proof fn lemma_wf_preserved(&self, s1: &MarkSweepSpace, s2: &MarkSweepSpace)
        requires
            self.wf(s1),
            same_block_layout(s1, s2),
        ensures
            self.wf(s2),
    {
        assert forall|c: int| 0 <= c <= MAX_SIZE_CLASS implies #[trigger] self.chain_wf(
            s2,
            c,
        ) by {
            assert(self.chain_wf(s1, c));
            let ch = self.chains@[c];
            assert forall|k: int| 0 <= k < ch.len() implies (#[trigger] s2.blocks@[ch[k]]).data.size
                == spec_cell_size(c) && s2.blocks@[ch[k]].trailer_addr()
                == s1.blocks@[ch[k]].trailer_addr() && s2.blocks@[ch[k]].data.next
                == s1.blocks@[ch[k]].data.next by {
                assert(s1.blocks@[ch[k]].data.size == spec_cell_size(c));
            }
        }
    }

    /// A fresh allocator for mutator thread `tls`: every size class's
    /// chain is empty, so every table entry is zero and the allocator is
    /// sound against any space.
    pub fn new(tls: u64) -> (r: FreeListAllocator)
        ensures
            r.tls == tls,
            r.blocks_direct@ =~= Seq::new((MAX_SIZE_CLASS + 1) as nat, |c: int| 0 as Address),
            r.chains@ =~= Seq::new((MAX_SIZE_CLASS + 1) as nat, |c: int| Seq::<int>::empty()),
    {
        let blocks_direct: Vec<Address> = vec![0; MAX_SIZE_CLASS as usize + 1];
        FreeListAllocator {
            tls,
            blocks_direct,
            chains: Ghost(Seq::new((MAX_SIZE_CLASS + 1) as nat, |c: int| Seq::<int>::empty())),
        }
    }

    /// A fresh allocator is sound against any space.
    pub proof fn lemma_new_wf(&self, space: &MarkSweepSpace)
        requires
            self.blocks_direct@ =~= Seq::new((MAX_SIZE_CLASS + 1) as nat, |c: int| 0 as Address),
            self.chains@ =~= Seq::new((MAX_SIZE_CLASS + 1) as nat, |c: int| Seq::<int>::empty()),
        ensures
            self.wf(space),
    {
        assert forall|c: int| 0 <= c <= MAX_SIZE_CLASS implies #[trigger] self.chain_wf(
            space,
            c,
        ) by {
            assert(self.chains@[c].len() == 0);
            assert(self.blocks_direct@[c] == 0);
        }
    }

    /// Try to pop a cell from the block whose trailer sits at
    /// `block_data_address`, and on exhaustion follow the chain's `next`
    /// links until a cell is found or the chain ends.  Returns zero only
    /// when every block from the given chain position on is exhausted,
    /// in which case nothing has changed.
    #[verifier::rlimit(100)]
    #[verifier::spinoff_prover]
    fn attempt_alloc_to_block(
        &self,
        space: &mut MarkSweepSpace,
        block_data_address: Address,
        Ghost(c): Ghost<int>,
        Ghost(k0): Ghost<int>,
    ) -> (cell: Address)
        requires
            old(space).wf(),
            self.wf(old(space)),
            0 <= c <= MAX_SIZE_CLASS,
            0 <= k0 < self.chains@[c].len(),
            old(space).blocks@[self.chains@[c][k0]].trailer_addr() == block_data_address,
        ensures
            final(space).wf(),
            self.wf(final(space)),
            same_block_layout(old(space), final(space)),
            final(space).start == old(space).start,
            final(space).cursor == old(space).cursor,
            final(space).extent == old(space).extent,
            final(space).name == old(space).name,
            final(space).initialized == old(space).initialized,
            final(space).local_specs == old(space).local_specs,
            final(space).mark_bits@ == old(space).mark_bits@,
            cell == 0 ==> final(space).blocks@ == old(space).blocks@ && final(space).alloc_bits@
                == old(space).alloc_bits@ && (forall|k: int|
                k0 <= k < self.chains@[c].len()
                    ==> old(space).blocks@[#[trigger] self.chains@[c][k]].free_seq().len() == 0),
            cell != 0 ==> {
                &&& !old(space).is_allocated_cell(cell as int)
                &&& final(space).spec_allocated() =~= old(space).spec_allocated().insert(
                    cell as int,
                )
                &&& final(space).alloc_at(cell as int)
                &&& final(space).in_meta_range(cell as int)
                &&& cell % 8 == 0
                &&& Self::cell_of_class(old(space), c, cell as int)
                &&& !self.chain_exhausted(old(space), c)
            },
        decreases self.chains@[c].len() - k0,
    {
        let ghost ch = self.chains@[c];
        let ghost bio = ch[k0];
        proof {
            assert(self.chain_wf(old(space), c));
        }
        let bi = space.block_index_of_trailer(block_data_address, Ghost(bio));
        let cell = space.pop_cell_in_block(bi);
        if cell != 0 {
            proof {
                self.lemma_wf_preserved(old(space), space);
                let b = old(space).blocks@[bio];
                let ti = b.free_seq().last();
                assert(0 <= ti < b.n_cells());
                assert(cell as int == b.cell_addr(ti));
                assert(b.is_cell(cell as int));
                assert(b.data.size == spec_cell_size(c));
                assert(Self::cell_of_class(old(space), c, cell as int));
                assert(!self.chain_exhausted(old(space), c)) by {
                    assert(old(space).blocks@[self.chains@[c][k0]].free_seq().len() > 0);
                }
            }
            return cell;
        }
        let next = space.blocks[bi].data.next;
        proof {
            self.lemma_wf_preserved(old(space), space);
        }
        if next == 0 {
            proof {
                assert(space.blocks@ == old(space).blocks@);
                assert(k0 == ch.len() - 1) by {
                    if k0 < ch.len() - 1 {
                        assert(old(space).blocks@[ch[k0]].data.next as int
                            == old(space).blocks@[ch[k0 + 1]].trailer_addr());
                        old(space).blocks@[ch[k0 + 1]].lemma_cell_geometry();
                    }
                }
            }
            return 0;
        }
        proof {
            assert(space.blocks@ == old(space).blocks@);
            assert(k0 < ch.len() - 1) by {
                if k0 == ch.len() - 1 {
                    assert(old(space).blocks@[ch[k0]].data.next == 0);
                }
            }
            assert(old(space).blocks@[ch[k0]].data.next as int == old(space).blocks@[ch[k0
                + 1]].trailer_addr());
        }
        let ghost smid = *space;
        let r = self.attempt_alloc_to_block(space, next, Ghost(c), Ghost(k0 + 1));
        proof {
            assert(smid.spec_allocated() =~= old(space).spec_allocated());
            if r != 0 {
                assert(!old(space).is_allocated_cell(r as int)) by {
                    if old(space).is_allocated_cell(r as int) {
                        assert(old(space).spec_allocated().contains(r as int));
                        assert(smid.spec_allocated().contains(r as int));
                    }
                }
                assert(final(space).spec_allocated() =~= old(space).spec_allocated().insert(
                    r as int,
                ));
                assert(!self.chain_exhausted(old(space), c)) by {
                    let k = choose|k: int|
                        0 <= k < self.chains@[c].len() && !(
                        #[trigger] smid.blocks@[self.chains@[c][k]].free_seq().len() == 0);
                    assert(old(space).blocks@[self.chains@[c][k]].free_seq().len() > 0);
                }
            } else {
                assert forall|k: int|
                    k0 <= k < self.chains@[c].len() implies old(space).blocks@[(
                #[trigger] self.chains@[c][k])].free_seq().len() == 0 by {
                    if k > k0 {
                        assert(smid.blocks@[self.chains@[c][k]].free_seq().len() == 0);
                    }
                }
            }
        }
        r
    }

    /// Map the pages of one fresh block from the owning space.
    pub fn acquire_block(&self, space: &mut MarkSweepSpace) -> (r: Address)
        requires
            old(space).wf(),
        ensures
            final(space).wf(),
            r == 0 ==> *final(space) == *old(space) && old(space).cursor + BYTES_IN_BLOCK > old(space).start + old(space).extent,
            r != 0 ==> r == old(space).cursor && final(space).cursor == old(space).cursor
                + BYTES_IN_BLOCK && final(space).blocks@ == old(space).blocks@,
    {
        space.acquire(self.tls, PAGES_IN_BLOCK)
    }

    /// Acquire one fresh block, carve it for the class of `size`, and
    /// publish it as the new head of that class's chain.  Returns the
    /// block's base address, or zero when the space cannot map another
    /// block, in which case nothing has changed.
    pub fn acquire_block_for_size(&mut self, space: &mut MarkSweepSpace, size: usize) -> (block:
        Address)
        requires
            old(space).wf(),
            old(self).wf(old(space)),
            size <= MAX_DIRECT_ALLOC_BYTES,
        ensures
            final(space).wf(),
            final(self).wf(final(space)),
            final(self).tls == old(self).tls,
            block == 0 <==> old(space).cursor + BYTES_IN_BLOCK > old(space).start + old(space).extent,
            block == 0 ==> *final(self) == *old(self) && *final(space) == *old(space),
            block != 0 ==> {
                let c = spec_bin(size as int);
                &&& final(self).chains@ =~= old(self).chains@.update(
                    c,
                    seq![old(space).blocks@.len() as int] + old(self).chains@[c],
                )
                &&& final(self).chains@[c].len() > 0
                &&& final(space).blocks@.len() == old(space).blocks@.len() + 1
                &&& forall|bj: int|
                    0 <= bj < old(space).blocks@.len() ==> final(space).blocks@[bj] == old(space).blocks@[bj]
                &&& final(space).blocks@[old(space).blocks@.len() as int].free_seq().len() == final(space).blocks@[old(space).blocks@.len() as int].n_cells() >= 1
                &&& final(space).spec_allocated() =~= old(space).spec_allocated()
                &&& final(space).cursor == old(space).cursor + BYTES_IN_BLOCK
                &&& forall|k: int|
                    0 <= k < old(space).mark_bits@.len() ==> final(space).mark_bits@[k] == old(space).mark_bits@[k]
                &&& forall|k: int|
                    old(space).mark_bits@.len() <= k < final(space).mark_bits@.len() ==> final(space).mark_bits@[k] == false
            },
    {
        proof {
            lemma_bin_le_max_iff(size as int);
            lemma_bin_bounds(size as int);
        }
        let bin = Self::_mi_bin(size);
        let cell_size = Self::class_cell_size(bin);
        let next = self.blocks_direct[bin as usize];
        let ghost s0 = *old(space);
        let (base, nbi) = space.add_block(self.tls, cell_size, next);
        if base == 0 {
            return 0;
        }
        proof {
            assert(space.blocks@[nbi as int].wf());
        }
        let block_data_address = base + (BYTES_IN_BLOCK - BLOCK_DATA_BYTES);
        self.blocks_direct[bin as usize] = block_data_address;
        proof {
            self.chains@ = self.chains@.update(
                bin as int,
                seq![nbi as int] + self.chains@[bin as int],
            );
        }
        proof {
            let c = bin as int;
            let nch = self.chains@[c];
            let och = old(self).chains@[c];
            assert(nch == seq![nbi as int] + och);
            assert forall|cc: int| 0 <= cc <= MAX_SIZE_CLASS implies #[trigger] self.chain_wf(
                space,
                cc,
            ) by {
                assert(old(self).chain_wf(&s0, cc));
                if cc != c {
                    assert(self.chains@[cc] == old(self).chains@[cc]);
                    let ch2 = self.chains@[cc];
                    assert forall|k: int| 0 <= k < ch2.len() implies (
                    #[trigger] space.blocks@[ch2[k]]).data.size == spec_cell_size(cc)
                        && space.blocks@[ch2[k]].trailer_addr() == s0.blocks@[ch2[k]].trailer_addr()
                        && space.blocks@[ch2[k]].data.next == s0.blocks@[ch2[k]].data.next by {
                        assert(s0.blocks@[ch2[k]].data.size == spec_cell_size(cc));
                    }
                } else {
                    assert forall|k: int| 0 <= k < nch.len() implies 0 <= #[trigger] nch[k]
                        < space.blocks@.len() && space.blocks@[nch[k]].data.size == spec_cell_size(
                        c,
                    ) by {
                        if k == 0 {
                            assert(nch[0] == nbi as int);
                        } else {
                            assert(nch[k] == och[k - 1]);
                            assert(s0.blocks@[och[k - 1]].data.size == spec_cell_size(c));
                        }
                    }
                    assert forall|k: int| 0 <= k < nch.len() - 1 implies (
                    #[trigger] space.blocks@[nch[k]]).data.next as int == space.blocks@[nch[k
                        + 1]].trailer_addr() by {
                        if k == 0 {
                            assert(nch[0] == nbi as int && nch[1] == och[0]);
                            assert(space.blocks@[nbi as int].data.next == next);
                        } else {
                            assert(nch[k] == och[k - 1] && nch[k + 1] == och[k]);
                            assert(s0.blocks@[och[k - 1]].data.next as int
                                == s0.blocks@[och[k]].trailer_addr());
                        }
                    }
                    if nch.len() > 0 {
                        if och.len() == 0 {
                            assert(nch[nch.len() - 1] == nbi as int);
                            assert(space.blocks@[nbi as int].data.next == next);
                        } else {
                            assert(nch[nch.len() - 1] == och[och.len() - 1]);
                            assert(s0.blocks@[och[och.len() - 1]].data.next == 0);
                        }
                    }
                }
            }
        }
        base
    }

    /// Allocation slow path: acquire and carve one fresh block for the
    /// class of `size`, publish it as the chain head, and serve the
    /// request from it — a freshly carved block is never empty, so the
    /// pop succeeds whenever a block could be mapped at all.
    pub fn alloc_slow_once(
        &mut self,
        space: &mut MarkSweepSpace,
        size: usize,
        align: usize,
        offset: isize,
    ) -> (r: Address)
        requires
            old(space).wf(),
            old(self).wf(old(space)),
            offset == 0,
            size <= MAX_DIRECT_ALLOC_BYTES,
        ensures
            final(space).wf(),
            final(self).wf(final(space)),
            final(self).tls == old(self).tls,
            r == 0 <==> old(space).cursor + BYTES_IN_BLOCK > old(space).start + old(space).extent,
            r == 0 ==> *final(self) == *old(self) && *final(space) == *old(space),
            r != 0 ==> {
                &&& !old(space).is_allocated_cell(r as int)
                &&& final(space).spec_allocated() =~= old(space).spec_allocated().insert(r as int)
                &&& final(space).alloc_at(r as int)
                &&& final(space).in_meta_range(r as int)
                &&& r % 8 == 0
                &&& Self::cell_of_class(final(space), spec_bin(size as int), r as int)
                &&& forall|k: int|
                    0 <= k < old(space).mark_bits@.len() ==> final(space).mark_bits@[k] == old(space).mark_bits@[k]
            },
    {
        let ghost s0 = *old(space);
        let block = self.acquire_block_for_size(space, size);
        if block == 0 {
            return 0;
        }
        proof {
            lemma_bin_bounds(size as int);
            lemma_bin_le_max_iff(size as int);
        }
        let bin = Self::_mi_bin(size);
        let block_data_address = self.blocks_direct[bin as usize];
        let ghost s1 = *space;
        proof {
            assert(self.chain_wf(&s1, bin as int));
            assert(self.chains@[bin as int][0] == s0.blocks@.len() as int);
        }
        let cell = self.attempt_alloc_to_block(space, block_data_address, Ghost(bin as int), Ghost(0));
        proof {
            if cell == 0 {
                assert(s1.blocks@[self.chains@[bin as int][0]].free_seq().len() == 0);
            }
            assert(s1.spec_allocated() =~= s0.spec_allocated());
            assert(!s0.is_allocated_cell(cell as int)) by {
                if s0.is_allocated_cell(cell as int) {
                    assert(s0.spec_allocated().contains(cell as int));
                    assert(s1.spec_allocated().contains(cell as int));
                }
            }
            assert(Self::cell_of_class(space, spec_bin(size as int), cell as int)) by {
                let bj = choose|bj: int|
                    0 <= bj < s1.blocks@.len() && (#[trigger] s1.blocks@[bj]).data.size
                        == spec_cell_size(bin as int) && s1.blocks@[bj].is_cell(cell as int);
                assert(space.blocks@[bj].data.size == s1.blocks@[bj].data.size
                    && space.blocks@[bj].base == s1.blocks@[bj].base);
                assert(space.blocks@[bj].is_cell(cell as int)) by {
                    let i = choose|i: int|
                        0 <= i < s1.blocks@[bj].n_cells() && cell as int
                            == #[trigger] s1.blocks@[bj].cell_addr(i);
                    assert(space.blocks@[bj].cell_addr(i) == s1.blocks@[bj].cell_addr(i));
                }
            }
        }
        cell
    }

    /// Allocate `size` usable bytes for the mutator: look up the chain of
    /// the request's size class, pop a free cell from it, and fall back
    /// to acquiring a fresh block when the whole chain is exhausted.
    /// Returns zero only when the chain is exhausted and the space cannot
    /// map another block; a returned cell is word-aligned, was not
    /// handed out before, and is the one cell added to the allocated set.
    pub fn allocate(
        &mut self,
        space: &mut MarkSweepSpace,
        size: usize,
        align: usize,
        offset: isize,
    ) -> (r: Address)
        requires
            old(space).wf(),
            old(self).wf(old(space)),
            offset == 0,
            size <= MAX_DIRECT_ALLOC_BYTES,
        ensures
            final(space).wf(),
            final(self).wf(final(space)),
            final(self).tls == old(self).tls,
            r == 0 <==> (old(self).chain_exhausted(old(space), spec_bin(size as int)) && old(space).cursor + BYTES_IN_BLOCK > old(space).start + old(space).extent),
            r == 0 ==> *final(self) == *old(self) && final(space).blocks@ == old(space).blocks@
                && final(space).mark_bits@ == old(space).mark_bits@ && final(space).alloc_bits@
                == old(space).alloc_bits@ && final(space).cursor == old(space).cursor,
            r != 0 ==> {
                &&& !old(space).is_allocated_cell(r as int)
                &&& final(space).spec_allocated() =~= old(space).spec_allocated().insert(r as int)
                &&& final(space).alloc_at(r as int)
                &&& final(space).in_meta_range(r as int)
                &&& r % 8 == 0
                &&& Self::cell_of_class(final(space), spec_bin(size as int), r as int)
                &&& size + BYTES_IN_WORD <= spec_cell_size(spec_bin(size as int))
                &&& forall|k: int|
                    0 <= k < old(space).mark_bits@.len() ==> final(space).mark_bits@[k] == old(space).mark_bits@[k]
            },
    {
        proof {
            lemma_bin_bounds(size as int);
            lemma_bin_le_max_iff(size as int);
            lemma_wsize_le_class_max(size as int);
        }
        let bin = Self::_mi_bin(size);
        let block_data_address = self.blocks_direct[bin as usize];
        proof {
            assert(self.chain_wf(old(space), bin as int));
        }
        if block_data_address == 0 {
            proof {
                assert(self.chains@[bin as int].len() == 0) by {
                    if self.chains@[bin as int].len() > 0 {
                        let hb = old(space).blocks@[self.chains@[bin as int][0]];
                        hb.lemma_cell_geometry();
                    }
                }
            }
            return self.alloc_slow_once(space, size, align, offset);
        }
        proof {
            assert(self.chains@[bin as int].len() > 0) by {
                if self.chains@[bin as int].len() == 0 {
                    assert(self.blocks_direct@[bin as int] == 0);
                }
            }
        }
        let ghost s0 = *old(space);
        let cell = self.attempt_alloc_to_block(space, block_data_address, Ghost(bin as int), Ghost(0));
        if cell == 0 {
            return self.alloc_slow_once(space, size, align, offset);
        }
        proof {
            assert(Self::cell_of_class(space, spec_bin(size as int), cell as int)) by {
                let bj = choose|bj: int|
                    0 <= bj < s0.blocks@.len() && (#[trigger] s0.blocks@[bj]).data.size
                        == spec_cell_size(bin as int) && s0.blocks@[bj].is_cell(cell as int);
                assert(space.blocks@[bj].data.size == s0.blocks@[bj].data.size
                    && space.blocks@[bj].base == s0.blocks@[bj].base);
                assert(space.blocks@[bj].is_cell(cell as int)) by {
                    let i = choose|i: int|
                        0 <= i < s0.blocks@[bj].n_cells() && cell as int
                            == #[trigger] s0.blocks@[bj].cell_addr(i);
                    assert(space.blocks@[bj].cell_addr(i) == s0.blocks@[bj].cell_addr(i));
                }
            }
        }
        cell
    }

    /// No premature reuse: a cell handed out by one allocation is never
    /// handed out again by a later allocation while it is still in the
    /// allocated set — only a sweep that finds its mark bit unset removes
    /// it from that set.  `allocate` guarantees each returned cell was
    /// outside the allocated set and joins it, so two returns without an
    /// intervening free are distinct.
    pub proof fn lemma_no_premature_reuse(
        allocated0: Set<int>,
        a1: int,
        allocated1: Set<int>,
        a2: int,
    )
        requires
            !allocated0.contains(a1),
            allocated1 =~= allocated0.insert(a1),
            !allocated1.contains(a2),
        ensures
            a2 != a1,
    {
        assert(allocated1.contains(a1));
    }

    /// Detach the head block of size class `size_class` from this
    /// allocator's chain, once a sweep has found every one of its cells
    /// free.  The block and its pages stay with the space — retaining
    /// fully free blocks is the default policy — but this allocator no
    /// longer serves cells from it.
    pub fn return_block(&mut self, space: &MarkSweepSpace, size_class: u8)
        requires
            space.wf(),
            old(self).wf(space),
            1 <= size_class <= MAX_SIZE_CLASS,
            old(self).chains@[size_class as int].len() > 0,
            space.blocks@[old(self).chains@[size_class as int][0]].free_seq().len()
                == space.blocks@[old(self).chains@[size_class as int][0]].n_cells(),
        ensures
            final(self).wf(space),
            final(self).tls == old(self).tls,
            final(self).chains@ =~= old(self).chains@.update(
                size_class as int,
                old(self).chains@[size_class as int].drop_first(),
            ),
    {
        let ghost c = size_class as int;
        let ghost och = self.chains@[c];
        proof {
            assert(self.chain_wf(space, c));
        }
        let t = self.blocks_direct[size_class as usize];
        let bi = space.block_index_of_trailer(t, Ghost(och[0]));
        let next = space.blocks[bi].data.next;
        self.blocks_direct[size_class as usize] = next;
        proof {
            self.chains@ = self.chains@.update(c, och.drop_first());
        }
        proof {
            let nch = self.chains@[c];
            assert forall|cc: int| 0 <= cc <= MAX_SIZE_CLASS implies #[trigger] self.chain_wf(
                space,
                cc,
            ) by {
                assert(old(self).chain_wf(space, cc));
                if cc == c {
                    assert forall|k: int| 0 <= k < nch.len() implies 0 <= #[trigger] nch[k]
                        < space.blocks@.len() && space.blocks@[nch[k]].data.size == spec_cell_size(
                        c,
                    ) by {
                        assert(nch[k] == och[k + 1]);
                        assert(space.blocks@[och[k + 1]].data.size == spec_cell_size(c));
                    }
                    assert forall|k: int| 0 <= k < nch.len() - 1 implies (
                    #[trigger] space.blocks@[nch[k]]).data.next as int == space.blocks@[nch[k
                        + 1]].trailer_addr() by {
                        assert(nch[k] == och[k + 1] && nch[k + 1] == och[k + 2]);
                        assert(space.blocks@[och[k + 1]].data.next as int == space.blocks@[och[k
                            + 2]].trailer_addr());
                    }
                    if nch.len() > 0 {
                        assert(nch[0] == och[1]);
                        assert(nch[nch.len() - 1] == och[och.len() - 1]);
                    }
                } else {
                    assert(self.chains@[cc] == old(self).chains@[cc]);
                }
            }
        }
    }
}

} // verus!
