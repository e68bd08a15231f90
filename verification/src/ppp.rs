//! The pinning-parent registry: objects whose outgoing references must be
//! treated as pinning, because the runtime holds untracked pointers to the
//! referents that it cannot rewrite after a move. The runtime registers such
//! objects at any time; the registry is walked only while the world is
//! stopped. In the running system a mutex guards the list; during
//! stop-the-world the protocol makes every access single-threaded, which is
//! how this model presents it.

use vstd::prelude::*;
use crate::ObjectReference;
use crate::heap::{Heap, HeapObject};
use crate::scanning::{pinned_registry_wf, lemma_pinned_union};
use crate::binding::MovedGivTbl;
use crate::abi::{GCThreadTLS, Visitor, pin_effect, records_newly_pinned};

verus! {

/// The post-move address of `o`: its published copy if it was forwarded,
/// otherwise `o` itself.
pub open spec fn forwarded_or_self(heap: Heap, o: ObjectReference) -> ObjectReference {
    if heap@.contains_key(o.addr) && heap@[o.addr].fwd is Forwarded {
        heap@[o.addr].fwd->to
    } else {
        o
    }
}

/// Registry contents after the weak-sweep pruning: live entries forwarded
/// in place, dead entries dropped.
pub open spec fn pruned_ppps(heap: Heap, s: Seq<ObjectReference>) -> Seq<ObjectReference>
    decreases s.len(),
{
    if s.len() == 0 {
        Seq::empty()
    } else {
        let rest = pruned_ppps(heap, s.drop_last());
        if heap.spec_is_live(s.last()) {
            rest.push(forwarded_or_self(heap, s.last()))
        } else {
            rest
        }
    }
}

/// The entries the weak-sweep pruning drops: exactly the dead ones, each
/// once, in registration order.
pub open spec fn dropped_ppps(heap: Heap, s: Seq<ObjectReference>) -> Seq<ObjectReference>
    decreases s.len(),
{
    if s.len() == 0 {
        Seq::empty()
    } else {
        let rest = dropped_ppps(heap, s.drop_last());
        if heap.spec_is_live(s.last()) {
            rest
        } else {
            rest.push(s.last())
        }
    }
}

pub struct PPPRegistry {
    ppps: Vec<ObjectReference>,
}

impl View for PPPRegistry {
    type V = Seq<ObjectReference>;

    closed spec fn view(&self) -> Seq<ObjectReference> {
        self.ppps@
    }
}

impl PPPRegistry {
    pub fn new() -> (r: PPPRegistry)
        ensures
            r@ == Seq::<ObjectReference>::empty(),
    {
        PPPRegistry { ppps: Vec::new() }
    }

    /// Register an object whose outgoing references must pin. Callable from
    /// any runtime thread at any time; objects self-register when they are
    /// created or recognized as possibly pinning.
    pub fn register(&mut self, object: ObjectReference)
        ensures
            final(self)@ == old(self)@.push(object),
    {
        self.ppps.push(object);
    }

    pub fn len(&self) -> (r: usize)
        ensures
            r == self@.len(),
    {
        self.ppps.len()
    }

    /// Read one entry.
    pub fn get(&self, i: usize) -> (r: ObjectReference)
        requires
            i < self@.len(),
        ensures
            r == self@[i as int],
    {
        self.ppps[i]
    }

    /// Visit every entry. Callable only during stop-the-world.
    pub fn foreach<F: Fn(ObjectReference)>(&self, f: F)
        requires
            forall|k: int| 0 <= k < self@.len() ==> call_requires(f, (self@[k],)),
    {
        let n = self.ppps.len();
        let mut i: usize = 0;
        while i < n
            invariant
                n == self@.len(),
                i <= n,
                forall|k: int| 0 <= k < self@.len() ==> call_requires(f, (self@[k],)),
            decreases n - i,
        {
            f(self.ppps[i]);
            i += 1;
        }
    }

    /// The weak sweep's pruning pass: forward every live entry to its
    /// post-move address in place and drop dead entries. This is the sole
    /// point where the registry's addresses are brought up to date, so it
    /// must run after tracing completes and before mutators resume.
    /// Returns the dropped entries.
    pub fn cleanup_ppps(&mut self, heap: &Heap) -> (removed: Vec<ObjectReference>)
        requires
            heap.wf(),
        ensures
            final(self)@ == pruned_ppps(*heap, old(self)@),
            removed@ == dropped_ppps(*heap, old(self)@),
            removed@.len() + final(self)@.len() == old(self)@.len(),
            forall|k: int| 0 <= k < removed@.len()
                ==> !heap.spec_is_live(#[trigger] removed@[k]),
    {
        let n = self.ppps.len();
        let mut kept: Vec<ObjectReference> = Vec::new();
        let mut removed: Vec<ObjectReference> = Vec::new();
        let mut i: usize = 0;
        while i < n
            invariant
                heap.wf(),
                n == old(self)@.len(),
                self@ == old(self)@,
                i <= n,
                kept@ == pruned_ppps(*heap, old(self)@.take(i as int)),
                removed@ == dropped_ppps(*heap, old(self)@.take(i as int)),
                kept@.len() + removed@.len() == i,
                forall|k: int| 0 <= k < removed@.len()
                    ==> !heap.spec_is_live(#[trigger] removed@[k]),
            decreases n - i,
        {
            let o = self.ppps[i];
            proof {
                assert(old(self)@.take(i + 1 as int).drop_last() =~= old(self)@.take(i as int));
                assert(old(self)@.take(i + 1 as int).last() == o);
            }
            if heap.is_live(o) {
                let fwd = match heap.get_forwarded_object(o) {
                    Some(t) => t,
                    None => o,
                };
                kept.push(fwd);
            } else {
                removed.push(o);
            }
            i += 1;
        }
        proof {
            assert(old(self)@.take(n as int) =~= old(self)@);
        }
        let mut out = kept;
        std::mem::swap(&mut self.ppps, &mut out);
        removed
    }

    /// The stop-the-world phase run before the primary scan: drive the
    /// runtime's "scan this object's references" upcall over the registered
    /// pinning parents through the closure bridge, pinning every visited
    /// referent so the untracked pointers their parents hold stay valid.
    /// `children` is the runtime's enumeration of the parents' referents;
    /// the referents this phase newly pinned are recorded in `pinned_ppps`
    /// for unpinning at the end of the cycle.
    pub fn pin_ppp_children(
        &self,
        gc_tls: &mut GCThreadTLS,
        heap: &mut Heap,
        moved_givtbl: &mut MovedGivTbl,
        pinned_ppps: &mut Vec<ObjectReference>,
        children: &Vec<(ObjectReference, bool)>,
    )
        requires
            old(gc_tls).object_closure is Unregistered,
            old(heap).wf(),
            pinned_registry_wf(old(pinned_ppps)@, *old(heap)),
        ensures
            final(gc_tls).object_closure is Unregistered,
            final(gc_tls).kind == old(gc_tls).kind,
            final(gc_tls).gc_context == old(gc_tls).gc_context,
            final(heap).wf(),
            pin_effect(old(heap)@, final(heap)@, children@),
            final(heap).spec_copy_log() == old(heap).spec_copy_log(),
            final(heap).spec_next_alloc() == old(heap).spec_next_alloc(),
            final(moved_givtbl)@ == old(moved_givtbl)@,
            pinned_registry_wf(final(pinned_ppps)@, *final(heap)),
            records_newly_pinned(
                old(pinned_ppps)@,
                final(pinned_ppps)@,
                *old(heap),
                children@,
            ),
    {
        let session = PinChildrenSession::new();
        let (v, _results) = gc_tls.object_closure.set_temporarily_and_run_code(
            Visitor::PinChildren(session),
            heap,
            moved_givtbl,
            children,
        );
        match v {
            Visitor::PinChildren(mut s) => {
                proof {
                    lemma_pinned_union(
                        old(pinned_ppps)@,
                        s.pinned@,
                        *old(heap),
                        *heap,
                        children@,
                    );
                }
                pinned_ppps.append(&mut s.pinned);
            },
            _ => {
                proof {
                    assert(false);
                }
            },
        }
    }
}

/// Everything one pinning visit guarantees: the referent's pin bit is set,
/// it is recorded for unpinning exactly when that bit was clear, and it is
/// returned unchanged.
pub open spec fn visit_child_post(
    pre_s: PinChildrenSession,
    post_s: PinChildrenSession,
    pre_h: Map<usize, HeapObject>,
    post_h: Map<usize, HeapObject>,
    object: ObjectReference,
    r: ObjectReference,
) -> bool {
    &&& r == object
    &&& post_h == if pre_h.contains_key(object.addr) {
        pre_h.insert(object.addr, HeapObject { pinned: true, ..pre_h[object.addr] })
    } else {
        pre_h
    }
    &&& post_s.pinned@ == if pre_h.contains_key(object.addr) && !pre_h[object.addr].pinned {
        pre_s.pinned@.push(object)
    } else {
        pre_s.pinned@
    }
}

/// One pinning traversal in progress: the visitor installed while the
/// runtime enumerates a pinning parent's references. Every referent is
/// pinned before tracing proceeds past this phase.
pub struct PinChildrenSession {
    /// The referents this traversal newly pinned.
    pub pinned: Vec<ObjectReference>,
}

impl PinChildrenSession {
    pub open spec fn inv(self, heap: Heap) -> bool {
        pinned_registry_wf(self.pinned@, heap)
    }

    pub fn new() -> (r: PinChildrenSession)
        ensures
            r.pinned@ == Seq::<ObjectReference>::empty(),
            forall|heap: Heap| #[trigger] r.inv(heap),
    {
        PinChildrenSession { pinned: Vec::new() }
    }

    /// Visit one referent of a pinning parent: pin it, and record it for
    /// unpinning at the end of the cycle if this call newly pinned it.
    /// Returns the referent unchanged — a pinned referent never moves.
    pub fn visit_child(&mut self, heap: &mut Heap, object: ObjectReference, pin: bool) -> (r:
        ObjectReference)
        requires
            old(self).inv(*old(heap)),
            old(heap).wf(),
        ensures
            final(self).inv(*final(heap)),
            final(heap).wf(),
            final(heap).spec_copy_log() == old(heap).spec_copy_log(),
            final(heap).spec_next_alloc() == old(heap).spec_next_alloc(),
            visit_child_post(*old(self), *final(self), old(heap)@, final(heap)@, object, r),
    {
        let _ = pin;
        if heap.pin_object(object) {
            proof {
                assert forall|i: int| 0 <= i < self.pinned@.len()
                    implies self.pinned@[i] != object by {
                    assert(old(heap)@[self.pinned@[i].addr].pinned);
                }
            }
            self.pinned.push(object);
        }
        object
    }
}

} // verus!
