//! The graph walk that marks reachable objects during a collection
//! cycle.
//!
//! `MSProcessEdges` is one unit of trace work: a batch of edges to
//! process, and the nodes whose own edges still have to be scanned.
//! Tracing an object tests and sets its mark bit; only the first visit
//! enqueues the object for edge scanning, so each reachable object is
//! marked once and scanned once per cycle however many edges point at
//! it.  The mark bit is the sole witness of liveness the sweep consumes.

use vstd::prelude::*;
use crate::Address;
use crate::marksweepspace::MarkSweepSpace;

verus! {

/// One step of the trace on its mathematical model: the set of marked
/// cells and the queue of nodes awaiting edge scanning.  A null object
/// or an already-marked object changes nothing; a first visit marks the
/// object and enqueues it exactly once.
pub open spec fn spec_trace_object(
    marked: Set<int>,
    nodes: Seq<Address>,
    object: Address,
) -> (Set<int>, Seq<Address>) {
    if object == 0 || marked.contains(object as int) {
        (marked, nodes)
    } else {
        (marked.insert(object as int), nodes.push(object))
    }
}

/// Trace idempotence: tracing the same object a second time during one
/// cycle marks nothing further and enqueues nothing further, whatever
/// state the first visit left.
pub proof fn lemma_trace_object_idempotent(marked: Set<int>, nodes: Seq<Address>, object: Address)
    ensures
        ({
            let once = spec_trace_object(marked, nodes, object);
            spec_trace_object(once.0, once.1, object) == once
        }),
{
    let once = spec_trace_object(marked, nodes, object);
    if object != 0 && !marked.contains(object as int) {
        assert(once.0.contains(object as int));
    }
}

/// One unit of mark-trace work.
pub struct MSProcessEdges {
    /// The batch of edges this work item processes.
    pub edges: Vec<Address>,
    /// Objects found unmarked so far: each is enqueued exactly once for
    /// scanning of its outgoing edges by further trace work.
    pub nodes: Vec<Address>,
}

impl MSProcessEdges {
    /// A work item over the given batch of edges; `roots` records whether
    /// the batch came from root scanning.
    pub fn new(edges: Vec<Address>, roots: bool) -> (r: MSProcessEdges)
        ensures
            r.edges@ == edges@,
            r.nodes@ =~= Seq::<Address>::empty(),
    {
        MSProcessEdges { edges, nodes: Vec::new() }
    }

    /// Trace one object: a null reference is returned unchanged and
    /// nothing else happens; an unmarked object has its mark bit set and
    /// is enqueued for edge scanning; an object already marked this cycle
    /// is left entirely alone.  On the model this is exactly one
    /// `spec_trace_object` step.
    pub fn trace_object(&mut self, space: &mut MarkSweepSpace, object: Address) -> (r: Address)
        requires
            old(space).wf(),
            object != 0 ==> old(space).is_allocated_cell(object as int) && old(space).alloc_at(
                object as int,
            ) && old(space).in_meta_range(object as int),
        ensures
            r == object,
            final(space).wf(),
            final(self).edges@ == old(self).edges@,
            final(space).blocks@ == old(space).blocks@,
            final(space).alloc_bits@ == old(space).alloc_bits@,
            final(space).cursor == old(space).cursor,
            final(space).start == old(space).start,
            final(space).extent == old(space).extent,
            final(space).name == old(space).name,
            final(space).initialized == old(space).initialized,
            final(space).local_specs == old(space).local_specs,
            final(space).spec_allocated() =~= old(space).spec_allocated(),
            final(space).marked_cells() =~= spec_trace_object(
                old(space).marked_cells(),
                old(self).nodes@,
                object,
            ).0,
            final(self).nodes@ == spec_trace_object(
                old(space).marked_cells(),
                old(self).nodes@,
                object,
            ).1,
            object == 0 ==> *final(self) == *old(self) && *final(space) == *old(space),
            object != 0 && old(space).marked_at(object as int) ==> *final(self) == *old(self)
                && *final(space) == *old(space),
    {
        if object == 0 {
            return object;
        }
        let ghost s0 = *old(space);
        proof {
            let (bj, j) = choose|bj: int, j: int|
                s0.is_cell_of(bj, j) && object as int == #[trigger] s0.blocks@[bj].cell_addr(j)
                    && !s0.blocks@[bj].is_free(j);
            s0.lemma_cell_in_range(bj, j);
        }
        let was_marked = space.is_live(object);
        if was_marked {
            return object;
        }
        let ghost s1 = *space;
        space.mark_object(object);
        self.nodes.push(object);
        proof {
            let cidx = s0.bit_index(object as int);
            let (bj, j) = choose|bj: int, j: int|
                s0.is_cell_of(bj, j) && object as int == #[trigger] s0.blocks@[bj].cell_addr(j)
                    && !s0.blocks@[bj].is_free(j);
            assert(s0.is_carved_cell(object as int));
            assert(final(space).marked_cells() =~= s0.marked_cells().insert(object as int)) by {
                assert forall|a: int| final(space).marked_cells().contains(a) implies
                    s0.marked_cells().contains(a) || a == object as int by {
                    if a != object as int {
                        let (b2, i2) = choose|b2: int, i2: int|
                            space.is_cell_of(b2, i2) && a == #[trigger] space.blocks@[b2].cell_addr(
                                i2,
                            );
                        assert(s0.is_cell_of(b2, i2) && a == s0.blocks@[b2].cell_addr(i2));
                        s0.lemma_cell_in_range(b2, i2);
                        if b2 == bj && i2 == j {
                            assert(false);
                        } else {
                            s0.lemma_cell_bit_injective(b2, i2, bj, j);
                        }
                    }
                }
                assert forall|a: int| s0.marked_cells().contains(a) implies final(space).marked_cells().contains(a) by {
                    let (b2, i2) = choose|b2: int, i2: int|
                        s0.is_cell_of(b2, i2) && a == #[trigger] s0.blocks@[b2].cell_addr(i2);
                    assert(space.is_cell_of(b2, i2) && a == space.blocks@[b2].cell_addr(i2));
                    s0.lemma_cell_in_range(b2, i2);
                    if b2 == bj && i2 == j {
                    } else {
                        s0.lemma_cell_bit_injective(b2, i2, bj, j);
                    }
                }
                assert(final(space).marked_cells().contains(object as int));
            }
            assert(!s0.marked_cells().contains(object as int));
        }
        object
    }
}

} // verus!
