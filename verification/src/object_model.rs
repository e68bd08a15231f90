//! The object model: where an object's collector-visible header lives, how
//! its byte range is copied, and the three-state forwarding protocol
//! (not-forwarded, being-forwarded, forwarded) that makes concurrent
//! forwarding attempts mutually exclusive. Exactly one collector thread wins
//! the transition out of `NotForwarded` for a given object; losers wait for
//! the winner to publish the forwarding pointer and then read the same
//! target. Only copying collection is supported: objects are never compacted
//! in place.

use vstd::prelude::*;
use crate::ObjectReference;
use crate::heap::{Heap, HeapObject, ForwardingState, CopyRecord, OBJREF_OFFSET};
use crate::binding::{MovedGivTbl, MovedGIVTblEntry};

verus! {

pub struct VMObjectModel {}

impl VMObjectModel {
    /// Start address of `object`'s copyable byte range: the prepended word
    /// sits `OBJREF_OFFSET` bytes before the reference address.
    pub fn ref_to_object_start(object: ObjectReference) -> (r: usize)
        requires
            object.addr >= OBJREF_OFFSET,
        ensures
            r == object.addr - OBJREF_OFFSET,
    {
        object.addr - OBJREF_OFFSET
    }

    /// The raw address a reference designates.
    pub fn ref_to_address(object: ObjectReference) -> (r: usize)
        ensures
            r == object.addr,
    {
        object.addr
    }

    /// The collector-visible header is the payload itself: the reference
    /// address.
    pub fn ref_to_header(object: ObjectReference) -> (r: usize)
        ensures
            r == object.addr,
    {
        object.addr
    }

    /// The reference designating the object whose header is at `addr`.
    pub fn address_to_ref(addr: usize) -> (r: ObjectReference)
        ensures
            r.addr == addr,
    {
        ObjectReference { addr }
    }

    /// Size in bytes of `object`'s copyable byte range.
    pub fn get_current_size(heap: &Heap, object: ObjectReference) -> (r: usize)
        requires
            heap.wf(),
            heap@.contains_key(object.addr),
        ensures
            r == heap@[object.addr].size,
    {
        heap.get_object(object).size
    }

    /// An object keeps its size when copied.
    pub fn get_size_when_copied(heap: &Heap, object: ObjectReference) -> (r: usize)
        requires
            heap.wf(),
            heap@.contains_key(object.addr),
        ensures
            r == heap@[object.addr].size,
    {
        Self::get_current_size(heap, object)
    }

    /// Attempt to win the forwarding of `object`: the single-winner
    /// transition from `NotForwarded` to `BeingForwarded`. The winner
    /// receives the flags word that the generic forwarding mechanism is
    /// about to overwrite, so the copy can reconstruct it; every other
    /// caller receives `None` and must wait for the winner to publish.
    pub fn attempt_to_forward(heap: &mut Heap, object: ObjectReference) -> (r: Option<usize>)
        requires
            old(heap).wf(),
            old(heap)@.contains_key(object.addr),
            forall|a: usize| #[trigger] old(heap)@.contains_key(a)
                ==> old(heap)@[a].fwd != (ForwardingState::Forwarded { to: object }),
        ensures
            final(heap).wf(),
            final(heap).spec_copy_log() == old(heap).spec_copy_log(),
            final(heap).spec_next_alloc() == old(heap).spec_next_alloc(),
            match r {
                Some(vm_data) => {
                    &&& old(heap)@[object.addr].fwd is NotForwarded
                    &&& vm_data == old(heap)@[object.addr].flags
                    &&& final(heap)@ == old(heap)@.insert(object.addr, HeapObject {
                        fwd: ForwardingState::BeingForwarded,
                        ..old(heap)@[object.addr]
                    })
                },
                None => {
                    &&& !(old(heap)@[object.addr].fwd is NotForwarded)
                    &&& final(heap)@ == old(heap)@
                },
            },
    {
        let i = heap.find_index(object.addr).unwrap();
        let obj = heap.get_object(object);
        match obj.fwd {
            ForwardingState::NotForwarded => {
                proof {
                    assert forall|k: int| 0 <= k < heap.spec_copy_log().len()
                        implies #[trigger] heap.spec_copy_log()[k].from != object by {
                        if heap.spec_copy_log()[k].from == object {
                            assert(heap@[object.addr].fwd is BeingForwarded
                                || heap@[object.addr].fwd is Forwarded);
                        }
                    }
                }
                heap.put_at(i, HeapObject { fwd: ForwardingState::BeingForwarded, ..obj });
                Some(obj.flags)
            },
            _ => None,
        }
    }

    /// Publish the forwarding of `object` to its new copy: the winner's
    /// transition from `BeingForwarded` to `Forwarded`. Only the thread that
    /// won `attempt_to_forward` and produced the copy may call this.
    pub fn write_forwarding_state_and_forwarding_pointer(
        heap: &mut Heap,
        object: ObjectReference,
        new_object: ObjectReference,
    )
        requires
            old(heap).wf(),
            old(heap)@.contains_key(object.addr),
            old(heap)@.contains_key(new_object.addr),
            object.addr != new_object.addr,
            old(heap)@[object.addr].fwd is BeingForwarded,
            old(heap)@[new_object.addr].reached,
            !old(heap)@[new_object.addr].moves_when_traced,
            old(heap)@[new_object.addr].fwd is NotForwarded,
            forall|a: usize| #[trigger] old(heap)@.contains_key(a)
                ==> old(heap)@[a].fwd != (ForwardingState::Forwarded { to: new_object }),
            forall|k: int| 0 <= k < old(heap).spec_copy_log().len()
                && #[trigger] old(heap).spec_copy_log()[k].from == object
                ==> old(heap).spec_copy_log()[k].to == new_object,
        ensures
            final(heap).wf(),
            final(heap).spec_copy_log() == old(heap).spec_copy_log(),
            final(heap).spec_next_alloc() == old(heap).spec_next_alloc(),
            final(heap)@ == old(heap)@.insert(object.addr, HeapObject {
                fwd: ForwardingState::Forwarded { to: new_object },
                ..old(heap)@[object.addr]
            }),
    {
        let i = heap.find_index(object.addr).unwrap();
        let obj = heap.get_object(object);
        heap.put_at(i, HeapObject { fwd: ForwardingState::Forwarded { to: new_object }, ..obj });
    }

    /// Roll back a won forwarding attempt, restoring the overwritten flags
    /// word. Safe to call only from the thread that won the attempt, and
    /// only while no copy of the object has been made.
    pub fn revert_forwarding_state(heap: &mut Heap, object: ObjectReference, vm_data: usize)
        requires
            old(heap).wf(),
            old(heap)@.contains_key(object.addr),
            old(heap)@[object.addr].fwd is BeingForwarded,
            forall|k: int| 0 <= k < old(heap).spec_copy_log().len()
                ==> #[trigger] old(heap).spec_copy_log()[k].from != object,
        ensures
            final(heap).wf(),
            final(heap).spec_copy_log() == old(heap).spec_copy_log(),
            final(heap).spec_next_alloc() == old(heap).spec_next_alloc(),
            final(heap)@ == old(heap)@.insert(object.addr, HeapObject {
                fwd: ForwardingState::NotForwarded,
                flags: vm_data,
                ..old(heap)@[object.addr]
            }),
    {
        let i = heap.find_index(object.addr).unwrap();
        let obj = heap.get_object(object);
        heap.put_at(
            i,
            HeapObject { fwd: ForwardingState::NotForwarded, flags: vm_data, ..obj },
        );
    }

    /// Whether the forwarding protocol has completed for `object`.
    pub fn is_forwarded(heap: &Heap, object: ObjectReference) -> (r: bool)
        requires
            heap.wf(),
            heap@.contains_key(object.addr),
        ensures
            r == (heap@[object.addr].fwd is Forwarded),
    {
        matches!(heap.get_object(object).fwd, ForwardingState::Forwarded { .. })
    }

    /// Read the published forwarding pointer of a forwarded object.
    pub fn read_forwarding_pointer(heap: &Heap, object: ObjectReference) -> (r: ObjectReference)
        requires
            heap.wf(),
            heap@.contains_key(object.addr),
            heap@[object.addr].fwd is Forwarded,
        ensures
            r == heap@[object.addr].fwd->to,
    {
        match heap.get_object(object).fwd {
            ForwardingState::Forwarded { to } => to,
            _ => ObjectReference { addr: 0 },
        }
    }

    /// A loser of the forwarding race obtains the winner's result. In the
    /// running system this spins until the winner publishes; in this model
    /// the caller holds the protocol's guarantee that publication has
    /// happened, so the wait has already ended.
    pub fn spin_and_get_forwarded_object(heap: &Heap, object: ObjectReference) -> (r:
        ObjectReference)
        requires
            heap.wf(),
            heap@.contains_key(object.addr),
            heap@[object.addr].fwd is Forwarded,
        ensures
            r == heap@[object.addr].fwd->to,
    {
        Self::read_forwarding_pointer(heap, object)
    }

    /// Law: a published forwarding pointer is final. A further forwarding
    /// attempt by any thread — which either fails and changes nothing, or
    /// wins the protocol for a different, not-yet-forwarded object — leaves
    /// it unchanged, so every reader obtains the same final address. And
    /// exactly one copy of the object's payload bytes exists in the
    /// destination space: at most one copy is ever logged for one source,
    /// that copy is the published target and holds the source's payload, and
    /// no other object forwards to the same target.
    pub proof fn lemma_forwarding_deterministic(
        pre: Heap,
        post: Heap,
        object: ObjectReference,
        other: ObjectReference,
    )
        requires
            pre.wf(),
            pre@.contains_key(object.addr),
            pre@[object.addr].fwd is Forwarded,
            post@ == pre@ || (pre@.contains_key(other.addr)
                && pre@[other.addr].fwd is NotForwarded
                && post@ == pre@.insert(other.addr, HeapObject {
                    fwd: ForwardingState::BeingForwarded,
                    ..pre@[other.addr]
                })),
        ensures
            post@.contains_key(object.addr),
            post@[object.addr].fwd == pre@[object.addr].fwd,
            ({
                let t = pre@[object.addr].fwd->to;
                &&& pre@.contains_key(t.addr)
                &&& (forall|a: usize| pre@.contains_key(a)
                        && #[trigger] pre@[a].fwd == (ForwardingState::Forwarded { to: t })
                        ==> a == object.addr)
                &&& (forall|k1: int, k2: int|
                    0 <= k1 < pre.spec_copy_log().len() && 0 <= k2 < pre.spec_copy_log().len()
                        && #[trigger] pre.spec_copy_log()[k1].from == object
                        && #[trigger] pre.spec_copy_log()[k2].from == object ==> k1 == k2)
                &&& (forall|k: int| 0 <= k < pre.spec_copy_log().len()
                        && #[trigger] pre.spec_copy_log()[k].from == object
                        ==> pre.spec_copy_log()[k].to == t
                            && pre@[t.addr].payload == pre@[object.addr].payload)
            }),
    {
        if post@ != pre@ {
            assert(other.addr != object.addr);
        }
    }

    /// Copy `object`'s byte range into the destination space: allocate at
    /// the minimum object alignment, copy the bytes, reconstruct the flags
    /// word the forwarding mechanism overwrote from `vm_data`, and — when
    /// the source owned an auxiliary table — record a moved-table entry
    /// keyed by the new reference and mark the new copy accordingly. Only
    /// the thread that won the forwarding attempt may call this, once.
    /// Returns `None` only when allocation is exhausted; the caller must
    /// then revert the forwarding attempt.
    pub fn copy(
        heap: &mut Heap,
        moved_givtbl: &mut MovedGivTbl,
        object: ObjectReference,
        vm_data: usize,
    ) -> (r: Option<ObjectReference>)
        requires
            old(heap).wf(),
            old(heap)@.contains_key(object.addr),
            old(heap)@[object.addr].fwd is BeingForwarded,
            forall|k: int| 0 <= k < old(heap).spec_copy_log().len()
                ==> #[trigger] old(heap).spec_copy_log()[k].from != object,
            old(moved_givtbl).wf(),
            forall|i: int| 0 <= i < old(moved_givtbl)@.len()
                ==> old(heap)@.contains_key(#[trigger] old(moved_givtbl)@[i].0.addr),
        ensures
            final(heap).wf(),
            final(moved_givtbl).wf(),
            final(heap).spec_next_alloc() >= old(heap).spec_next_alloc(),
            forall|i: int| 0 <= i < final(moved_givtbl)@.len()
                ==> final(heap)@.contains_key(#[trigger] final(moved_givtbl)@[i].0.addr),
            match r {
                Some(to) => {
                    &&& !old(heap)@.contains_key(to.addr)
                    &&& final(heap)@ == old(heap)@.insert(to.addr, HeapObject {
                        addr: to.addr,
                        flags: vm_data,
                        payload: old(heap)@[object.addr].payload,
                        size: old(heap)@[object.addr].size,
                        fwd: ForwardingState::NotForwarded,
                        pinned: false,
                        reached: false,
                        has_givtbl: old(heap)@[object.addr].has_givtbl,
                        givtbl: old(heap)@[object.addr].givtbl,
                        has_moved_givtbl: old(heap)@[object.addr].has_givtbl,
                        moves_when_traced: false,
                    })
                    &&& final(heap).spec_copy_log()
                        == old(heap).spec_copy_log().push(CopyRecord { from: object, to })
                    &&& final(moved_givtbl)@ == if old(heap)@[object.addr].has_givtbl {
                        old(moved_givtbl)@.push((to, MovedGIVTblEntry {
                            old_objref: object,
                            gen_ivtbl: old(heap)@[object.addr].givtbl,
                        }))
                    } else {
                        old(moved_givtbl)@
                    }
                },
                None => {
                    &&& final(heap)@ == old(heap)@
                    &&& final(heap).spec_copy_log() == old(heap).spec_copy_log()
                    &&& final(heap).spec_next_alloc() == old(heap).spec_next_alloc()
                    &&& final(moved_givtbl)@ == old(moved_givtbl)@
                },
            },
            r is None <==> old(heap).spec_next_alloc() + crate::heap::spec_alloc_step(
                old(heap)@[object.addr].size as int,
            ) > usize::MAX,
    {
        let src = heap.get_object(object);
        let to = match heap.push_copy(object, vm_data) {
            Some(to) => to,
            None => {
                return None;
            },
        };
        if src.has_givtbl {
            moved_givtbl.insert(
                to,
                MovedGIVTblEntry { old_objref: object, gen_ivtbl: src.givtbl },
            );
        }
        Some(to)
    }
}

} // verus!
