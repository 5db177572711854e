//! Out-of-band bit planes addressed by a stable formula from an object's
//! address.
//!
//! A `SideMetadataSpec` describes where one plane lives: its byte offset
//! inside the metadata area and how many bits it keeps per minimum-sized
//! object.  Planes laid out at consecutive offsets never overlap; the
//! sanity check below verifies that for an arbitrary set of specs.
//! `Bitmap` is the concrete store behind the one-bit planes (mark bit,
//! allocation bit) that a space owns.

use vstd::prelude::*;
use vstd::arithmetic::power2::pow2;
use vstd::bits::lemma_u64_shl_is_mul;

verus! {

/// log2 of the span of addresses a metadata plane must be able to cover.
pub const LOG_ADDRESS_SPACE: u64 = 47;

/// Layout description of one side-metadata bit plane.
#[derive(Clone, Copy, PartialEq, Eq, Structural, Debug)]
pub struct SideMetadataSpec {
    /// Whether the plane is shared by all policies or local to one.
    pub is_global: bool,
    /// Byte offset of this plane inside the metadata area.
    pub offset: u64,
    /// log2 of the number of metadata bits kept per minimum-sized object.
    pub log_num_of_bits: u64,
    /// log2 of the granularity: one metadata unit per `1 << log_min_obj_size`
    /// bytes of heap.
    pub log_min_obj_size: u64,
}

/// A spec whose derived sizes stay inside machine arithmetic.
pub open spec fn spec_wf(s: SideMetadataSpec) -> bool {
    &&& s.log_min_obj_size <= 44
    &&& s.log_num_of_bits <= 16
}

/// Number of metadata bytes plane `s` needs to cover the whole address
/// space: one `1 << log_num_of_bits`-bit unit for every
/// `1 << log_min_obj_size` bytes of address range, eight bits to a byte.
pub open spec fn spec_range_size(s: SideMetadataSpec) -> nat {
    pow2((LOG_ADDRESS_SPACE - s.log_min_obj_size + s.log_num_of_bits - 3) as nat)
}

/// Number of metadata bytes the plane described by `spec` occupies.
pub fn metadata_address_range_size(spec: &SideMetadataSpec) -> (r: u64)
    requires
        spec_wf(*spec),
    ensures
        r == spec_range_size(*spec),
        r >= 1,
{
    let exp = LOG_ADDRESS_SPACE - spec.log_min_obj_size + spec.log_num_of_bits - 3;
    proof {
        vstd::arithmetic::power2::lemma_pow2_pos(exp as nat);
        if exp < 63 {
            vstd::arithmetic::power2::lemma_pow2_strictly_increases(exp as nat, 63);
        }
        vstd::arithmetic::power2::lemma2_to64_rest();
        lemma_u64_shl_is_mul(1u64, exp);
    }
    1u64 << exp
}

/// The byte ranges of two planes do not intersect.
pub open spec fn spec_disjoint(a: SideMetadataSpec, b: SideMetadataSpec) -> bool {
    a.offset + spec_range_size(a) <= b.offset || b.offset + spec_range_size(b) <= a.offset
}

/// Every pair of distinct planes in `specs` is disjoint.
pub open spec fn spec_all_disjoint(specs: Seq<SideMetadataSpec>) -> bool {
    forall|i: int, j: int|
        0 <= i < specs.len() && 0 <= j < specs.len() && i != j ==> spec_disjoint(
            #[trigger] specs[i],
            #[trigger] specs[j],
        )
}

/// Validate that no two side-metadata planes overlap.  An overlap is a
/// startup-time invariant violation: the caller must treat `false` as
/// fatal before any metadata is written.
pub fn verify_side_metadata_sanity(specs: &Vec<SideMetadataSpec>) -> (r: bool)
    requires
        forall|i: int| 0 <= i < specs.len() ==> spec_wf(#[trigger] specs[i]),
        forall|i: int|
            0 <= i < specs.len() ==> (#[trigger] specs[i]).offset + spec_range_size(specs[i])
                <= u64::MAX,
    ensures
        r == spec_all_disjoint(specs@),
{
    let mut i: usize = 0;
    while i < specs.len()
        invariant
            i <= specs.len(),
            forall|k: int| 0 <= k < specs.len() ==> spec_wf(#[trigger] specs@[k]),
            forall|k: int|
                0 <= k < specs.len() ==> (#[trigger] specs@[k]).offset + spec_range_size(specs@[k])
                    <= u64::MAX,
            forall|p: int, q: int|
                0 <= p < i && 0 <= q < specs.len() && p != q ==> spec_disjoint(
                    #[trigger] specs@[p],
                    #[trigger] specs@[q],
                ),
        decreases specs.len() - i,
    {
        let mut j: usize = 0;
        while j < specs.len()
            invariant
                i < specs.len(),
                j <= specs.len(),
                forall|k: int| 0 <= k < specs.len() ==> spec_wf(#[trigger] specs@[k]),
                forall|k: int|
                    0 <= k < specs.len() ==> (#[trigger] specs@[k]).offset + spec_range_size(
                        specs@[k],
                    ) <= u64::MAX,
                forall|q: int|
                    0 <= q < j && q != i ==> spec_disjoint(specs@[i as int], #[trigger] specs@[q]),
            decreases specs.len() - j,
        {
            if j != i {
                let a = specs[i];
                let b = specs[j];
                let ra = metadata_address_range_size(&a);
                let rb = metadata_address_range_size(&b);
                if !(a.offset + ra <= b.offset || b.offset + rb <= a.offset) {
                    return false;
                }
            }
            j = j + 1;
        }
        assert forall|q: int| 0 <= q < specs.len() && q != i implies spec_disjoint(
            specs@[i as int],
            #[trigger] specs@[q],
        ) by {}
        i = i + 1;
    }
    true
}

/// Concrete store of one single-bit side-metadata plane.
pub struct Bitmap {
    bits: Vec<bool>,
}

impl Bitmap {
    /// The plane as a sequence of bits.
    pub closed spec fn view(&self) -> Seq<bool> {
        self.bits@
    }

    /// An empty plane, covering no addresses yet.
    pub fn new() -> (r: Bitmap)
        ensures
            r@ =~= Seq::<bool>::empty(),
    {
        Bitmap { bits: Vec::new() }
    }

    /// Number of bits the plane currently covers.
    pub fn len(&self) -> (r: usize)
        ensures
            r == self@.len(),
    {
        self.bits.len()
    }

    /// Read the bit at `i`.
    pub fn get_bit(&self, i: usize) -> (r: bool)
        requires
            i < self@.len(),
        ensures
            r == self@[i as int],
    {
        self.bits[i]
    }

    /// Write the bit at `i`.
    pub fn set_bit(&mut self, i: usize, v: bool)
        requires
            i < old(self)@.len(),
        ensures
            final(self)@ =~= old(self)@.update(i as int, v),
    {
        self.bits[i] = v;
    }

    /// Extend the plane by `n` cleared bits, as freshly mapped (zeroed)
    /// pages do.
    pub fn grow(&mut self, n: usize)
        requires
            old(self)@.len() + n <= u64::MAX,
        ensures
            final(self)@.len() == old(self)@.len() + n,
            forall|k: int| 0 <= k < old(self)@.len() ==> final(self)@[k] == old(self)@[k],
            forall|k: int| old(self)@.len() <= k < final(self)@.len() ==> final(self)@[k] == false,
    {
        let mut k: usize = 0;
        while k < n
            invariant
                k <= n,
                self@.len() == old(self)@.len() + k,
                forall|m: int| 0 <= m < old(self)@.len() ==> self@[m] == old(self)@[m],
                forall|m: int| old(self)@.len() <= m < self@.len() ==> self@[m] == false,
            decreases n - k,
        {
            self.bits.push(false);
            k = k + 1;
        }
    }
}

} // verus!
