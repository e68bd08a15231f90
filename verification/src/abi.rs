//! The thread-local GC context and the object-visiting closure bridge.
//!
//! Each collector thread (one controller, many workers) carries a
//! `GCThreadTLS` with its role, an opaque handle to the collector's
//! per-thread execution context, and a slot for a temporarily installed
//! object visitor. The bridge lets the runtime's native "enumerate my
//! references" callback reach a collector-owned visitor without the runtime
//! knowing visitors exist: the visitor is installed for the dynamic extent
//! of one runtime upcall and the slot is restored to its default,
//! unregistered state on every exit path. Invoking the trampoline while
//! unregistered is a caller bug, reported with the calling thread's context
//! and the object. The bridge is not reentrant: installing a visitor while
//! one is installed is forbidden, and the single-call-site discipline makes
//! that a static property.

use vstd::prelude::*;
use crate::ObjectReference;
use crate::heap::{Heap, HeapObject};
use crate::binding::MovedGivTbl;
use crate::scanning::{RootCollector, objs_of, pinned_objs_of, visits_addr};
use crate::ppp::PinChildrenSession;
use crate::weak_proc::WeakTableForwarder;

verus! {

/// The role of a collector thread.
#[derive(Clone, Copy, PartialEq, Eq, Structural, Debug)]
pub enum GCThreadKind {
    Controller,
    Worker,
}

/// Diagnostic for an invocation of the trampoline while no visitor was
/// installed: a fatal caller bug, identified by the calling thread's
/// context handle and the object being visited.
#[derive(Clone, Copy, PartialEq, Eq, Structural, Debug)]
pub struct ClosureBridgeError {
    pub gc_context: usize,
    pub object: ObjectReference,
}

/// A visitor that can be installed in the thread-local closure slot for the
/// extent of one runtime upcall.
pub enum Visitor {
    /// A root scan: buffer, batch, pin and record each visited root.
    CollectRoots(RootCollector),
    /// A pinning-parent traversal: pin each visited referent.
    PinChildren(PinChildrenSession),
    /// An object scan: trace each visited referent through the engine.
    TraceChildren,
    /// A weak-table update: forward each visited reference; such references
    /// must never be presented as pinning.
    ForwardWeakTable(WeakTableForwarder),
}

/// The thread's object-visiting closure slot. At most one visitor is
/// installed at a time; the default state is unregistered.
pub enum ObjectClosure {
    Unregistered,
    Registered(Visitor),
}

impl Default for ObjectClosure {
    fn default() -> (r: Self)
        ensures
            r is Unregistered,
    {
        ObjectClosure::Unregistered
    }
}

/// Preconditions for driving tracing visitors: the heap's forwarding
/// protocol has settled, the moved-table keys are managed, and every
/// visited object is managed.
pub open spec fn trace_visits_ok(
    heap: Heap,
    moved: MovedGivTbl,
    visits: Seq<(ObjectReference, bool)>,
) -> bool {
    &&& heap.quiescent()
    &&& moved.wf()
    &&& (forall|i: int| 0 <= i < moved@.len()
            ==> heap@.contains_key(#[trigger] moved@[i].0.addr))
    &&& (forall|k: int| 0 <= k < visits.len()
            ==> heap@.contains_key(#[trigger] visits[k].0.addr))
}

/// Effect of a pinning pass on the heap: no object is added or removed, and
/// each object's record is unchanged except that every visited object's pin
/// bit is now set.
pub open spec fn pin_effect(
    pre: Map<usize, HeapObject>,
    post: Map<usize, HeapObject>,
    visits: Seq<(ObjectReference, bool)>,
) -> bool {
    &&& post.dom() == pre.dom()
    &&& (forall|a: usize| #[trigger] pre.contains_key(a) ==> post[a] == (if visits_addr(
        visits,
        a,
    ) {
        HeapObject { pinned: true, ..pre[a] }
    } else {
        pre[a]
    }))
}

/// Effect of a tracing pass on the heap: objects are only added, pin bits
/// are untouched, pinned objects are never forwarded, and objects the trace
/// had already settled — reached and unforwarded, or forwarded — are left
/// exactly as they were.
pub open spec fn trace_effect(pre: Heap, post: Heap) -> bool {
    &&& post.wf()
    &&& post.quiescent()
    &&& (forall|a: usize| #[trigger] pre@.contains_key(a) ==> post@.contains_key(a))
    &&& (forall|a: usize| #[trigger] pre@.contains_key(a)
            ==> post@[a].pinned == pre@[a].pinned)
    &&& (forall|a: usize| #[trigger] pre@.contains_key(a) && pre@[a].pinned
            ==> post@[a].fwd == pre@[a].fwd)
    &&& (forall|a: usize| #[trigger] pre@.contains_key(a) && pre@[a].reached
            && pre@[a].fwd is NotForwarded ==> post@[a] == pre@[a])
    &&& (forall|a: usize| #[trigger] pre@.contains_key(a) && pre@[a].fwd is Forwarded
            ==> post@[a] == pre@[a])
}

/// Every visited object is already settled by the trace.
pub open spec fn all_settled(heap: Heap, visits: Seq<(ObjectReference, bool)>) -> bool {
    forall|k: int| 0 <= k < visits.len() ==> heap.spec_trace_settled(#[trigger] visits[k].0)
}

/// The answer a tracing pass must give for a visit whose object's fate was
/// already decided when the pass began: a reference forwarded at entry is
/// answered with its published target, and a pinned or already-settled
/// reference is answered with itself — its address is unchanged by the
/// trace.
pub open spec fn visit_answer_fixed(pre: Heap, o: ObjectReference, r: ObjectReference) -> bool {
    &&& (pre@[o.addr].fwd is Forwarded ==> r == pre@[o.addr].fwd->to)
    &&& (pre@[o.addr].pinned && !(pre@[o.addr].fwd is Forwarded) ==> r == o)
    &&& (pre@[o.addr].reached && pre@[o.addr].fwd is NotForwarded ==> r == o)
}

/// A tracing pass grows mark and forwarding state only along its visits: an
/// object marked or forwarded afterwards was already so at entry, or was one
/// of the visited references. In particular an object dead at entry and not
/// visited is still dead afterwards.
pub open spec fn trace_growth_bounded(
    pre: Heap,
    post: Heap,
    visits: Seq<(ObjectReference, bool)>,
) -> bool {
    &&& (forall|a: usize| #[trigger] pre@.contains_key(a) && post@[a].reached
            ==> pre@[a].reached || visits_addr(visits, a))
    &&& (forall|a: usize| #[trigger] pre@.contains_key(a) && post@[a].fwd is Forwarded
            ==> pre@[a].fwd is Forwarded || visits_addr(visits, a))
}

/// One tracer visit answers as the entry heap dictates, and extends the
/// mark/forwarding growth bound by the one visited reference.
pub proof fn lemma_trace_visit_step(
    orig: Heap,
    pre: Heap,
    post: Heap,
    pre_moved: Seq<(ObjectReference, crate::binding::MovedGIVTblEntry)>,
    post_moved: Seq<(ObjectReference, crate::binding::MovedGIVTblEntry)>,
    visits: Seq<(ObjectReference, bool)>,
    j: int,
    rr: ObjectReference,
)
    requires
        orig.quiescent(),
        0 <= j < visits.len(),
        orig@.contains_key(visits[j].0.addr),
        trace_effect(orig, pre),
        trace_growth_bounded(orig, pre, visits.take(j)),
        Heap::trace_object_post(pre, post, pre_moved, post_moved, visits[j].0, rr),
    ensures
        visit_answer_fixed(orig, visits[j].0, rr),
        trace_growth_bounded(orig, post, visits.take(j + 1)),
{
    let object = visits[j].0;
    let a0 = object.addr;
    assert(pre@.contains_key(a0));
    // The answer is fixed by the entry heap: the tracing pass preserves a
    // published pointer, a pin bit, and a settled record.
    assert(visit_answer_fixed(orig, object, rr)) by {
        if orig@[a0].fwd is Forwarded {
            assert(pre@[a0] == orig@[a0]);
        } else if orig@[a0].pinned {
            assert(pre@[a0].pinned == orig@[a0].pinned);
            assert(pre@[a0].fwd == orig@[a0].fwd);
            assert(!(orig@[a0].fwd is BeingForwarded));
        } else if orig@[a0].reached && orig@[a0].fwd is NotForwarded {
            assert(pre@[a0] == orig@[a0]);
        }
    }
    // One more visited address extends the growth bound.
    assert forall|a: usize| visits_addr(visits.take(j), a)
        implies visits_addr(visits.take(j + 1), a) by {
        let k = choose|k: int| 0 <= k < visits.take(j).len()
            && (#[trigger] visits.take(j)[k]).0.addr == a;
        assert(visits.take(j + 1)[k].0.addr == a);
    }
    assert(visits_addr(visits.take(j + 1), a0)) by {
        assert(visits.take(j + 1)[j].0.addr == a0);
    }
    assert forall|a: usize| #[trigger] orig@.contains_key(a) && post@[a].reached
        implies orig@[a].reached || visits_addr(visits.take(j + 1), a) by {
        if pre@[a0].fwd is Forwarded {
            assert(post@[a] == pre@[a]);
        } else if a != a0 && a != rr.addr {
            assert(post@[a] == pre@[a]);
        }
    }
    assert forall|a: usize| #[trigger] orig@.contains_key(a) && post@[a].fwd is Forwarded
        implies orig@[a].fwd is Forwarded || visits_addr(visits.take(j + 1), a) by {
        if pre@[a0].fwd is Forwarded {
            assert(post@[a] == pre@[a]);
        } else if a != a0 && a != rr.addr {
            assert(post@[a] == pre@[a]);
        }
    }
}

/// How a pinning pass extends a pinned-object registry: the old entries
/// stay, and an object is recorded exactly when it was visited and its pin
/// bit was not yet set.
pub open spec fn records_newly_pinned(
    pre_list: Seq<ObjectReference>,
    post_list: Seq<ObjectReference>,
    pre_heap: Heap,
    visits: Seq<(ObjectReference, bool)>,
) -> bool {
    &&& pre_list.is_prefix_of(post_list)
    &&& (forall|o: ObjectReference| #[trigger] post_list.contains(o) <==> (pre_list.contains(o)
            || (objs_of(visits).contains(o) && pre_heap@.contains_key(o.addr)
                && !pre_heap@[o.addr].pinned)))
}

impl ObjectClosure {
    /// Install `visitor` in this slot, let the runtime make `visits` calls
    /// into it through the trampoline, and unconditionally restore the
    /// default, unregistered state before returning. Returns the visitor's
    /// final state and the reference each visit returned to the runtime.
    /// This method is not reentrant: it requires the slot to be free, which
    /// the single-call-site discipline of each scan phase guarantees.
    pub fn set_temporarily_and_run_code(
        &mut self,
        visitor: Visitor,
        heap: &mut Heap,
        moved_givtbl: &mut MovedGivTbl,
        visits: &Vec<(ObjectReference, bool)>,
    ) -> (r: (Visitor, Vec<ObjectReference>))
        requires
            *old(self) is Unregistered,
            old(heap).wf(),
            visitor matches Visitor::CollectRoots(c) ==> c.inv(*old(heap)),
            visitor matches Visitor::PinChildren(s) ==> s.inv(*old(heap)),
            visitor is TraceChildren || visitor is ForwardWeakTable
                ==> trace_visits_ok(*old(heap), *old(moved_givtbl), visits@),
        ensures
            *final(self) is Unregistered,
            final(heap).wf(),
            r.1@.len() == visits@.len(),
            visitor is CollectRoots || visitor is PinChildren ==> {
                &&& pin_effect(old(heap)@, final(heap)@, visits@)
                &&& final(heap).spec_copy_log() == old(heap).spec_copy_log()
                &&& final(heap).spec_next_alloc() == old(heap).spec_next_alloc()
                &&& final(moved_givtbl)@ == old(moved_givtbl)@
                &&& r.1@ == objs_of(visits@)
            },
            visitor matches Visitor::CollectRoots(c) ==> (r.0 matches Visitor::CollectRoots(c2)
                && {
                &&& c2.inv(*final(heap))
                &&& c2.capacity == c.capacity
                &&& c2.base_len == c.base_len
                &&& c2.my_roots@ == c.my_roots@ + objs_of(visits@)
                &&& c2.factory@.len() >= c.factory@.len()
                &&& c2.factory@.take(c.factory@.len() as int) == c.factory@
                &&& records_newly_pinned(
                    c.my_pinned_roots@,
                    c2.my_pinned_roots@,
                    *old(heap),
                    visits@,
                )
            }),
            visitor matches Visitor::PinChildren(s) ==> (r.0 matches Visitor::PinChildren(s2)
                && {
                &&& s2.inv(*final(heap))
                &&& records_newly_pinned(s.pinned@, s2.pinned@, *old(heap), visits@)
            }),
            visitor is TraceChildren || visitor is ForwardWeakTable ==> {
                &&& trace_effect(*old(heap), *final(heap))
                &&& final(moved_givtbl).wf()
                &&& (forall|i: int| 0 <= i < final(moved_givtbl)@.len()
                        ==> final(heap)@.contains_key(#[trigger] final(moved_givtbl)@[i].0.addr))
                &&& (forall|k: int| 0 <= k < r.1@.len()
                        ==> final(heap).spec_trace_settled(#[trigger] r.1@[k]))
                &&& (forall|k: int| 0 <= k < visits@.len()
                        ==> visit_answer_fixed(*old(heap), visits@[k].0, #[trigger] r.1@[k]))
                &&& trace_growth_bounded(*old(heap), *final(heap), visits@)
                &&& (all_settled(*old(heap), visits@) ==> {
                    &&& final(heap)@ == old(heap)@
                    &&& final(heap).spec_copy_log() == old(heap).spec_copy_log()
                    &&& final(moved_givtbl)@ == old(moved_givtbl)@
                    &&& r.1@ == objs_of(visits@)
                })
            },
            visitor is TraceChildren ==> r.0 is TraceChildren,
            visitor matches Visitor::ForwardWeakTable(w) ==> (r.0 matches
                Visitor::ForwardWeakTable(w2) && w2.pin_errors@ == w.pin_errors@
                + pinned_objs_of(visits@)),
    {
        let n = visits.len();
        let mut results: Vec<ObjectReference> = Vec::new();
        match visitor {
            Visitor::CollectRoots(c) => {
                let ghost c0 = c;
                *self = ObjectClosure::Registered(Visitor::CollectRoots(c));
                let mut j: usize = 0;
                while j < n
                    invariant
                        n == visits@.len(),
                        j <= n,
                        heap.wf(),
                        heap.spec_copy_log() == old(heap).spec_copy_log(),
                        heap.spec_next_alloc() == old(heap).spec_next_alloc(),
                        pin_effect(old(heap)@, heap@, visits@.take(j as int)),
                        results@ == objs_of(visits@.take(j as int)),
                        *self matches ObjectClosure::Registered(Visitor::CollectRoots(cc)) && {
                            &&& cc.inv(*heap)
                            &&& cc.capacity == c0.capacity
                            &&& cc.base_len == c0.base_len
                            &&& cc.my_roots@ == c0.my_roots@ + objs_of(visits@.take(j as int))
                            &&& cc.factory@.len() >= c0.factory@.len()
                            &&& cc.factory@.take(c0.factory@.len() as int) == c0.factory@
                            &&& records_newly_pinned(
                                c0.my_pinned_roots@,
                                cc.my_pinned_roots@,
                                *old(heap),
                                visits@.take(j as int),
                            )
                        },
                    decreases n - j,
                {
                    let object = visits[j].0;
                    let pin = visits[j].1;
                    let ghost pre_heap = *heap;
                    let ghost pre_visits = visits@.take(j as int);
                    match self {
                        ObjectClosure::Registered(Visitor::CollectRoots(cc)) => {
                            let ghost pre_pinned = cc.my_pinned_roots@;
                            let rr = cc.visit_root(heap, object, pin);
                            results.push(rr);
                            proof {
                                lemma_take_one_more(visits@, j as int);
                                lemma_pin_step(
                                    old(heap)@,
                                    pre_heap@,
                                    heap@,
                                    pre_visits,
                                    object,
                                    pin,
                                );
                                lemma_newly_pinned_step(
                                    c0.my_pinned_roots@,
                                    pre_pinned,
                                    cc.my_pinned_roots@,
                                    *old(heap),
                                    pre_heap,
                                    pre_visits,
                                    object,
                                    pin,
                                );
                                assert((c0.my_roots@ + objs_of(pre_visits)).push(object)
                                    =~= c0.my_roots@ + objs_of(pre_visits).push(object));
                                assert(cc.factory@.take(c0.factory@.len() as int)
                                    =~= c0.factory@);
                            }
                        },
                        _ => {
                            proof {
                                assert(false);
                            }
                        },
                    }
                    j += 1;
                }
                proof {
                    assert(visits@.take(n as int) =~= visits@);
                }
                let mut out = ObjectClosure::Unregistered;
                std::mem::swap(self, &mut out);
                match out {
                    ObjectClosure::Registered(v) => (v, results),
                    _ => {
                        proof {
                            assert(false);
                        }
                        (Visitor::TraceChildren, results)
                    },
                }
            },
            Visitor::PinChildren(s) => {
                let ghost s0 = s;
                *self = ObjectClosure::Registered(Visitor::PinChildren(s));
                let mut j: usize = 0;
                while j < n
                    invariant
                        n == visits@.len(),
                        j <= n,
                        heap.wf(),
                        heap.spec_copy_log() == old(heap).spec_copy_log(),
                        heap.spec_next_alloc() == old(heap).spec_next_alloc(),
                        pin_effect(old(heap)@, heap@, visits@.take(j as int)),
                        results@ == objs_of(visits@.take(j as int)),
                        *self matches ObjectClosure::Registered(Visitor::PinChildren(ss)) && {
                            &&& ss.inv(*heap)
                            &&& records_newly_pinned(
                                s0.pinned@,
                                ss.pinned@,
                                *old(heap),
                                visits@.take(j as int),
                            )
                        },
                    decreases n - j,
                {
                    let object = visits[j].0;
                    let pin = visits[j].1;
                    let ghost pre_heap = *heap;
                    let ghost pre_visits = visits@.take(j as int);
                    match self {
                        ObjectClosure::Registered(Visitor::PinChildren(ss)) => {
                            let ghost pre_pinned = ss.pinned@;
                            let rr = ss.visit_child(heap, object, pin);
                            results.push(rr);
                            proof {
                                lemma_take_one_more(visits@, j as int);
                                lemma_pin_step(
                                    old(heap)@,
                                    pre_heap@,
                                    heap@,
                                    pre_visits,
                                    object,
                                    pin,
                                );
                                lemma_newly_pinned_step(
                                    s0.pinned@,
                                    pre_pinned,
                                    ss.pinned@,
                                    *old(heap),
                                    pre_heap,
                                    pre_visits,
                                    object,
                                    pin,
                                );
                            }
                        },
                        _ => {
                            proof {
                                assert(false);
                            }
                        },
                    }
                    j += 1;
                }
                proof {
                    assert(visits@.take(n as int) =~= visits@);
                }
                let mut out = ObjectClosure::Unregistered;
                std::mem::swap(self, &mut out);
                match out {
                    ObjectClosure::Registered(v) => (v, results),
                    _ => {
                        proof {
                            assert(false);
                        }
                        (Visitor::TraceChildren, results)
                    },
                }
            },
            Visitor::TraceChildren => {
                *self = ObjectClosure::Registered(Visitor::TraceChildren);
                proof {
                    assert(trace_growth_bounded(*old(heap), *heap, visits@.take(0)));
                }
                let mut j: usize = 0;
                while j < n
                    invariant
                        n == visits@.len(),
                        j <= n,
                        *self is Registered,
                        trace_visits_ok(*old(heap), *old(moved_givtbl), visits@),
                        heap.wf(),
                        trace_effect(*old(heap), *heap),
                        moved_givtbl.wf(),
                        forall|i: int| 0 <= i < moved_givtbl@.len()
                            ==> heap@.contains_key(#[trigger] moved_givtbl@[i].0.addr),
                        results@.len() == j,
                        forall|k: int| 0 <= k < results@.len()
                            ==> heap.spec_trace_settled(#[trigger] results@[k]),
                        forall|k: int| 0 <= k < results@.len()
                            ==> visit_answer_fixed(
                                *old(heap),
                                visits@[k].0,
                                #[trigger] results@[k],
                            ),
                        trace_growth_bounded(*old(heap), *heap, visits@.take(j as int)),
                        all_settled(*old(heap), visits@) ==> {
                            &&& heap@ == old(heap)@
                            &&& heap.spec_copy_log() == old(heap).spec_copy_log()
                            &&& moved_givtbl@ == old(moved_givtbl)@
                            &&& results@ == objs_of(visits@.take(j as int))
                        },
                    decreases n - j,
                {
                    let object = visits[j].0;
                    let ghost pre_heap = *heap;
                    let ghost pre_moved = *moved_givtbl;
                    let ghost pre_results = results@;
                    let rr = heap.trace_object(moved_givtbl, object);
                    results.push(rr);
                    proof {
                        lemma_take_one_more(visits@, j as int);
                        assert(trace_effect(pre_heap, *heap));
                        lemma_trace_step(*old(heap), pre_heap, *heap, object, rr);
                        lemma_trace_visit_step(
                            *old(heap),
                            pre_heap,
                            *heap,
                            pre_moved@,
                            moved_givtbl@,
                            visits@,
                            j as int,
                            rr,
                        );
                        if all_settled(*old(heap), visits@) {
                            assert(old(heap).spec_trace_settled(visits@[j as int].0));
                            assert(pre_heap@[object.addr].reached
                                && pre_heap@[object.addr].fwd is NotForwarded);
                            assert(rr == object);
                            assert(heap@ =~= pre_heap@);
                            assert(moved_givtbl@ == pre_moved@);
                            assert(results@ =~= pre_results.push(object));
                        }
                    }
                    j += 1;
                }
                proof {
                    assert(visits@.take(n as int) =~= visits@);
                }
                *self = ObjectClosure::Unregistered;
                (Visitor::TraceChildren, results)
            },
            Visitor::ForwardWeakTable(w) => {
                let ghost w0 = w;
                *self = ObjectClosure::Registered(Visitor::ForwardWeakTable(w));
                proof {
                    assert(trace_growth_bounded(*old(heap), *heap, visits@.take(0)));
                }
                let mut j: usize = 0;
                while j < n
                    invariant
                        n == visits@.len(),
                        j <= n,
                        trace_visits_ok(*old(heap), *old(moved_givtbl), visits@),
                        heap.wf(),
                        trace_effect(*old(heap), *heap),
                        moved_givtbl.wf(),
                        forall|i: int| 0 <= i < moved_givtbl@.len()
                            ==> heap@.contains_key(#[trigger] moved_givtbl@[i].0.addr),
                        results@.len() == j,
                        forall|k: int| 0 <= k < results@.len()
                            ==> heap.spec_trace_settled(#[trigger] results@[k]),
                        forall|k: int| 0 <= k < results@.len()
                            ==> visit_answer_fixed(
                                *old(heap),
                                visits@[k].0,
                                #[trigger] results@[k],
                            ),
                        trace_growth_bounded(*old(heap), *heap, visits@.take(j as int)),
                        all_settled(*old(heap), visits@) ==> {
                            &&& heap@ == old(heap)@
                            &&& heap.spec_copy_log() == old(heap).spec_copy_log()
                            &&& moved_givtbl@ == old(moved_givtbl)@
                            &&& results@ == objs_of(visits@.take(j as int))
                        },
                        *self matches ObjectClosure::Registered(Visitor::ForwardWeakTable(ww))
                            && ww.pin_errors@ == w0.pin_errors@
                            + pinned_objs_of(visits@.take(j as int)),
                    decreases n - j,
                {
                    let object = visits[j].0;
                    let pin = visits[j].1;
                    let ghost pre_heap = *heap;
                    let ghost pre_moved = *moved_givtbl;
                    let ghost pre_results = results@;
                    let rr = heap.trace_object(moved_givtbl, object);
                    results.push(rr);
                    match self {
                        ObjectClosure::Registered(Visitor::ForwardWeakTable(ww)) => {
                            let ghost pre_errors = ww.pin_errors@;
                            if pin {
                                ww.pin_errors.push(object);
                            }
                            proof {
                                lemma_pinned_objs_step(visits@, j as int);
                                assert(w0.pin_errors@ + pinned_objs_of(visits@.take(j + 1))
                                    =~= ww.pin_errors@);
                            }
                        },
                        _ => {
                            proof {
                                assert(false);
                            }
                        },
                    }
                    proof {
                        lemma_take_one_more(visits@, j as int);
                        assert(trace_effect(pre_heap, *heap));
                        lemma_trace_step(*old(heap), pre_heap, *heap, object, rr);
                        lemma_trace_visit_step(
                            *old(heap),
                            pre_heap,
                            *heap,
                            pre_moved@,
                            moved_givtbl@,
                            visits@,
                            j as int,
                            rr,
                        );
                        if all_settled(*old(heap), visits@) {
                            assert(old(heap).spec_trace_settled(visits@[j as int].0));
                            assert(pre_heap@[object.addr].reached
                                && pre_heap@[object.addr].fwd is NotForwarded);
                            assert(rr == object);
                            assert(heap@ =~= pre_heap@);
                            assert(moved_givtbl@ == pre_moved@);
                            assert(results@ =~= pre_results.push(object));
                        }
                    }
                    j += 1;
                }
                proof {
                    assert(visits@.take(n as int) =~= visits@);
                }
                let mut out = ObjectClosure::Unregistered;
                std::mem::swap(self, &mut out);
                match out {
                    ObjectClosure::Registered(v) => (v, results),
                    _ => {
                        proof {
                            assert(false);
                        }
                        (Visitor::TraceChildren, results)
                    },
                }
            },
        }
    }
}

/// `take(j + 1)` extends `take(j)` by the element at `j`, and the same
/// holds of the visited-object projections.
pub proof fn lemma_take_one_more(visits: Seq<(ObjectReference, bool)>, j: int)
    requires
        0 <= j < visits.len(),
    ensures
        visits.take(j + 1) == visits.take(j).push(visits[j]),
        objs_of(visits.take(j + 1)) == objs_of(visits.take(j)).push(visits[j].0),
        forall|a: usize| visits_addr(visits.take(j + 1), a) <==> (visits_addr(visits.take(j), a)
            || a == visits[j].0.addr),
        forall|o: ObjectReference| #[trigger] objs_of(visits.take(j + 1)).contains(o)
            <==> (objs_of(visits.take(j)).contains(o) || o == visits[j].0),
{
    assert(visits.take(j + 1) =~= visits.take(j).push(visits[j]));
    assert(objs_of(visits.take(j + 1)) =~= objs_of(visits.take(j)).push(visits[j].0));
    assert forall|a: usize| visits_addr(visits.take(j + 1), a) <==> (visits_addr(
        visits.take(j),
        a,
    ) || a == visits[j].0.addr) by {
        if visits_addr(visits.take(j + 1), a) {
            let k = choose|k: int| 0 <= k < visits.take(j + 1).len()
                && (#[trigger] visits.take(j + 1)[k]).0.addr == a;
            if k < j {
                assert(visits.take(j)[k].0.addr == a);
            }
        }
        if visits_addr(visits.take(j), a) {
            let k = choose|k: int| 0 <= k < visits.take(j).len()
                && (#[trigger] visits.take(j)[k]).0.addr == a;
            assert(visits.take(j + 1)[k].0.addr == a);
        }
        if a == visits[j].0.addr {
            assert(visits.take(j + 1)[j].0.addr == a);
        }
    }
    assert forall|o: ObjectReference| #[trigger] objs_of(visits.take(j + 1)).contains(o)
        <==> (objs_of(visits.take(j)).contains(o) || o == visits[j].0) by {
        let s1 = objs_of(visits.take(j));
        let s2 = objs_of(visits.take(j + 1));
        assert(s2 == s1.push(visits[j].0));
        if s2.contains(o) {
            let k = choose|k: int| 0 <= k < s2.len() && s2[k] == o;
            if k < s1.len() {
                assert(s1[k] == o);
            }
        }
        if s1.contains(o) {
            let k = choose|k: int| 0 <= k < s1.len() && s1[k] == o;
            assert(s2[k] == o);
        }
        if o == visits[j].0 {
            assert(s2[s2.len() - 1] == o);
        }
    }
}

/// One pin visit extends the pointwise pinning effect by one visited
/// address.
pub proof fn lemma_pin_step(
    orig: Map<usize, HeapObject>,
    pre: Map<usize, HeapObject>,
    post: Map<usize, HeapObject>,
    pre_visits: Seq<(ObjectReference, bool)>,
    object: ObjectReference,
    pin: bool,
)
    requires
        pin_effect(orig, pre, pre_visits),
        post == if pre.contains_key(object.addr) {
            pre.insert(object.addr, HeapObject { pinned: true, ..pre[object.addr] })
        } else {
            pre
        },
    ensures
        pin_effect(orig, post, pre_visits.push((object, pin))),
{
    let visits2 = pre_visits.push((object, pin));
    assert forall|a: usize| visits_addr(visits2, a) <==> (visits_addr(pre_visits, a)
        || a == object.addr) by {
        if visits_addr(visits2, a) {
            let k = choose|k: int| 0 <= k < visits2.len() && (#[trigger] visits2[k]).0.addr == a;
            if k < pre_visits.len() {
                assert(pre_visits[k].0.addr == a);
            }
        }
        if visits_addr(pre_visits, a) {
            let k = choose|k: int| 0 <= k < pre_visits.len() && (#[trigger] pre_visits[k]).0.addr == a;
            assert(visits2[k].0.addr == a);
        }
        if a == object.addr {
            assert(visits2[visits2.len() - 1].0.addr == a);
        }
    }
    assert(post.dom() =~= orig.dom());
    assert forall|a: usize| #[trigger] orig.contains_key(a) implies post[a] == (if visits_addr(
        visits2,
        a,
    ) {
        HeapObject { pinned: true, ..orig[a] }
    } else {
        orig[a]
    }) by {
        if a == object.addr {
            assert(pre.contains_key(a));
        }
    }
}

/// Objects of a visit sequence contain `o` exactly when some visit's
/// address is `o`'s: a reference is its address.
pub proof fn lemma_objs_of_addr(visits: Seq<(ObjectReference, bool)>, o: ObjectReference)
    ensures
        objs_of(visits).contains(o) <==> visits_addr(visits, o.addr),
{
    if objs_of(visits).contains(o) {
        let k = choose|k: int| 0 <= k < objs_of(visits).len() && objs_of(visits)[k] == o;
        assert(visits[k].0.addr == o.addr);
    }
    if visits_addr(visits, o.addr) {
        let k = choose|k: int| 0 <= k < visits.len() && (#[trigger] visits[k]).0.addr == o.addr;
        assert(visits[k].0 == o);
        assert(objs_of(visits)[k] == o);
    }
}

/// One pin visit extends the newly-pinned registry characterization by one
/// object.
pub proof fn lemma_newly_pinned_step(
    list0: Seq<ObjectReference>,
    pre_list: Seq<ObjectReference>,
    post_list: Seq<ObjectReference>,
    orig_heap: Heap,
    pre_heap: Heap,
    pre_visits: Seq<(ObjectReference, bool)>,
    object: ObjectReference,
    pin: bool,
)
    requires
        records_newly_pinned(list0, pre_list, orig_heap, pre_visits),
        pin_effect(orig_heap@, pre_heap@, pre_visits),
        post_list == if pre_heap@.contains_key(object.addr) && !pre_heap@[object.addr].pinned {
            pre_list.push(object)
        } else {
            pre_list
        },
    ensures
        records_newly_pinned(list0, post_list, orig_heap, pre_visits.push((object, pin))),
{
    let visits2 = pre_visits.push((object, pin));
    assert(list0.is_prefix_of(post_list)) by {
        assert(post_list.take(list0.len() as int) =~= list0);
    }
    assert forall|o: ObjectReference| #[trigger] post_list.contains(o) <==> (list0.contains(o)
        || (objs_of(visits2).contains(o) && orig_heap@.contains_key(o.addr)
            && !orig_heap@[o.addr].pinned)) by {
        lemma_objs_of_addr(visits2, o);
        lemma_objs_of_addr(pre_visits, o);
        assert(visits_addr(visits2, o.addr) <==> (visits_addr(pre_visits, o.addr)
            || o.addr == object.addr)) by {
            if visits_addr(visits2, o.addr) {
                let k = choose|k: int| 0 <= k < visits2.len() && (#[trigger] visits2[k]).0.addr == o.addr;
                if k < pre_visits.len() {
                    assert(pre_visits[k].0.addr == o.addr);
                }
            }
            if visits_addr(pre_visits, o.addr) {
                let k = choose|k: int| 0 <= k < pre_visits.len()
                    && (#[trigger] pre_visits[k]).0.addr == o.addr;
                assert(visits2[k].0.addr == o.addr);
            }
            if o.addr == object.addr {
                assert(visits2[visits2.len() - 1].0.addr == o.addr);
            }
        }
        let pushed = pre_heap@.contains_key(object.addr) && !pre_heap@[object.addr].pinned;
        assert(post_list.contains(o) <==> (pre_list.contains(o) || (pushed && o == object))) by {
            if post_list.contains(o) {
                let k = choose|k: int| 0 <= k < post_list.len() && post_list[k] == o;
                if k < pre_list.len() {
                    assert(pre_list[k] == o);
                }
            }
            if pre_list.contains(o) {
                let k = choose|k: int| 0 <= k < pre_list.len() && pre_list[k] == o;
                assert(post_list[k] == o);
            }
            if pushed && o == object {
                assert(post_list[post_list.len() - 1] == o);
            }
        }
        if o == object {
            // The visited object: recorded exactly when its pin bit was not
            // yet set, which by the pinning effect means it was neither
            // pinned originally nor visited before.
            if pre_heap@.contains_key(object.addr) {
                assert(orig_heap@.dom() == pre_heap@.dom());
                assert(orig_heap@.contains_key(object.addr));
            } else {
                assert(orig_heap@.dom() == pre_heap@.dom());
                assert(!orig_heap@.contains_key(object.addr));
            }
        }
    }
}

/// One trace visit preserves the tracing effect and the settledness of all
/// previously produced results.
pub proof fn lemma_trace_step(
    orig: Heap,
    pre: Heap,
    post: Heap,
    object: ObjectReference,
    rr: ObjectReference,
)
    requires
        trace_effect(orig, pre),
        trace_effect(pre, post),
        post.spec_trace_settled(rr),
    ensures
        trace_effect(orig, post),
        forall|o: ObjectReference| pre.spec_trace_settled(o)
            ==> post.spec_trace_settled(o),
{
    assert forall|o: ObjectReference| pre.spec_trace_settled(o) implies post.spec_trace_settled(
        o,
    ) by {
        assert(pre@.contains_key(o.addr) && pre@[o.addr].reached
            && pre@[o.addr].fwd is NotForwarded);
        assert(post@[o.addr] == pre@[o.addr]);
    }
    assert forall|a: usize| #[trigger] orig@.contains_key(a) && orig@[a].reached
        && orig@[a].fwd is NotForwarded implies post@[a] == orig@[a] by {
        assert(pre@[a] == orig@[a]);
        assert(pre@.contains_key(a));
    }
    assert forall|a: usize| #[trigger] orig@.contains_key(a) && orig@[a].fwd is Forwarded
        implies post@[a] == orig@[a] by {
        assert(pre@[a] == orig@[a]);
        assert(pre@.contains_key(a));
    }
    assert forall|a: usize| #[trigger] orig@.contains_key(a) && orig@[a].pinned
        implies post@[a].fwd == orig@[a].fwd by {
        assert(pre@.contains_key(a));
        assert(pre@[a].pinned == orig@[a].pinned);
    }
}

/// One weak-table visit extends the pinning-violation projection by the
/// visited object exactly when its pin flag was set.
pub proof fn lemma_pinned_objs_step(visits: Seq<(ObjectReference, bool)>, j: int)
    requires
        0 <= j < visits.len(),
    ensures
        pinned_objs_of(visits.take(j + 1)) == if visits[j].1 {
            pinned_objs_of(visits.take(j)).push(visits[j].0)
        } else {
            pinned_objs_of(visits.take(j))
        },
{
    let s1 = visits.take(j);
    let s2 = visits.take(j + 1);
    let pred = |p: (ObjectReference, bool)| p.1;
    assert(s2.drop_last() =~= s1);
    assert(s2.last() == visits[j]);
    reveal_with_fuel(Seq::filter, 2);
    assert(s2.filter(pred) == if visits[j].1 {
        s1.filter(pred).push(visits[j])
    } else {
        s1.filter(pred)
    });
    if visits[j].1 {
        assert(objs_of(s1.filter(pred).push(visits[j])) =~= objs_of(s1.filter(pred)).push(
            visits[j].0,
        ));
    }
}

/// A batch of object references in the shape handed across the language
/// boundary: the embedder's C side receives the elements and the length.
pub struct RawVecOfObjRef {
    pub objs: Vec<ObjectReference>,
    pub len: usize,
}

impl RawVecOfObjRef {
    /// Package a vector of references for the language boundary.
    pub fn from_vec(vec: Vec<ObjectReference>) -> (r: RawVecOfObjRef)
        ensures
            r.objs@ == vec@,
            r.len == vec@.len(),
    {
        let len = vec.len();
        RawVecOfObjRef { objs: vec, len }
    }

    /// Recover the vector.
    pub fn into_vec(self) -> (r: Vec<ObjectReference>)
        ensures
            r@ == self.objs@,
    {
        self.objs
    }
}

/// Options the embedder chooses when the binding starts.
#[derive(Clone, Copy, PartialEq, Eq, Structural, Debug)]
pub struct RubyBindingOptions {
    pub ractor_check_mode: bool,
    pub suffix_size: usize,
}

/// The thread-local context of one collector thread: its role, the opaque
/// handle to the collector's per-thread execution context, and the
/// object-visiting closure slot.
pub struct GCThreadTLS {
    pub kind: GCThreadKind,
    pub gc_context: usize,
    pub object_closure: ObjectClosure,
}

impl GCThreadTLS {
    /// Context for the controller thread.
    pub fn for_controller(gc_context: usize) -> (r: GCThreadTLS)
        ensures
            r.kind is Controller,
            r.gc_context == gc_context,
            r.object_closure is Unregistered,
    {
        GCThreadTLS {
            kind: GCThreadKind::Controller,
            gc_context,
            object_closure: ObjectClosure::Unregistered,
        }
    }

    /// Context for a worker thread.
    pub fn for_worker(gc_context: usize) -> (r: GCThreadTLS)
        ensures
            r.kind is Worker,
            r.gc_context == gc_context,
            r.object_closure is Unregistered,
    {
        GCThreadTLS {
            kind: GCThreadKind::Worker,
            gc_context,
            object_closure: ObjectClosure::Unregistered,
        }
    }

    /// The worker execution context handle; only a worker thread has one.
    pub fn worker(&self) -> (r: usize)
        requires
            self.kind is Worker,
        ensures
            r == self.gc_context,
    {
        self.gc_context
    }

    /// The C-callable trampoline: the runtime invokes this once per visited
    /// object, and it dispatches to the visitor installed in this thread's
    /// closure slot. Invoking it while the slot is unregistered is a fatal
    /// caller bug; the error identifies the calling thread's context and the
    /// object so the embedder can abort with a diagnostic.
    pub fn invoke_object_closure(
        &mut self,
        heap: &mut Heap,
        moved_givtbl: &mut MovedGivTbl,
        object: ObjectReference,
        pin: bool,
    ) -> (r: Result<ObjectReference, ClosureBridgeError>)
        requires
            old(heap).wf(),
            old(self).object_closure matches ObjectClosure::Registered(v) ==> match v {
                Visitor::CollectRoots(c) => c.inv(*old(heap)),
                Visitor::PinChildren(s) => s.inv(*old(heap)),
                Visitor::TraceChildren => old(heap).quiescent()
                    && old(heap)@.contains_key(object.addr)
                    && old(moved_givtbl).wf()
                    && (forall|i: int| 0 <= i < old(moved_givtbl)@.len()
                        ==> old(heap)@.contains_key(#[trigger] old(moved_givtbl)@[i].0.addr)),
                Visitor::ForwardWeakTable(_) => old(heap).quiescent()
                    && old(heap)@.contains_key(object.addr)
                    && old(moved_givtbl).wf()
                    && (forall|i: int| 0 <= i < old(moved_givtbl)@.len()
                        ==> old(heap)@.contains_key(#[trigger] old(moved_givtbl)@[i].0.addr)),
            },
        ensures
            final(heap).wf(),
            final(self).kind == old(self).kind,
            final(self).gc_context == old(self).gc_context,
            r is Err <==> old(self).object_closure is Unregistered,
            r matches Err(e) ==> {
                &&& e.gc_context == old(self).gc_context
                &&& e.object == object
                &&& final(self).object_closure is Unregistered
                &&& final(heap)@ == old(heap)@
                &&& final(moved_givtbl)@ == old(moved_givtbl)@
            },
            r is Ok ==> final(self).object_closure is Registered,
            // One dispatch does exactly what the installed visitor does.
            old(self).object_closure matches ObjectClosure::Registered(
                Visitor::CollectRoots(c),
            ) ==> (final(self).object_closure matches ObjectClosure::Registered(
                Visitor::CollectRoots(c2),
            ) && r matches Ok(rr) && {
                &&& crate::scanning::visit_root_post(
                    c,
                    c2,
                    old(heap)@,
                    final(heap)@,
                    object,
                    rr,
                )
                &&& c2.inv(*final(heap))
                &&& final(heap).spec_copy_log() == old(heap).spec_copy_log()
                &&& final(heap).spec_next_alloc() == old(heap).spec_next_alloc()
                &&& final(moved_givtbl)@ == old(moved_givtbl)@
            }),
            old(self).object_closure matches ObjectClosure::Registered(
                Visitor::PinChildren(s),
            ) ==> (final(self).object_closure matches ObjectClosure::Registered(
                Visitor::PinChildren(s2),
            ) && r matches Ok(rr) && {
                &&& crate::ppp::visit_child_post(
                    s,
                    s2,
                    old(heap)@,
                    final(heap)@,
                    object,
                    rr,
                )
                &&& s2.inv(*final(heap))
                &&& final(heap).spec_copy_log() == old(heap).spec_copy_log()
                &&& final(heap).spec_next_alloc() == old(heap).spec_next_alloc()
                &&& final(moved_givtbl)@ == old(moved_givtbl)@
            }),
            old(self).object_closure matches ObjectClosure::Registered(Visitor::TraceChildren)
                ==> (final(self).object_closure matches ObjectClosure::Registered(
                Visitor::TraceChildren,
            ) && r matches Ok(rr) && {
                &&& Heap::trace_object_post(
                    *old(heap),
                    *final(heap),
                    old(moved_givtbl)@,
                    final(moved_givtbl)@,
                    object,
                    rr,
                )
                &&& final(moved_givtbl).wf()
                &&& final(heap).spec_trace_settled(rr)
            }),
            old(self).object_closure matches ObjectClosure::Registered(
                Visitor::ForwardWeakTable(w),
            ) ==> (final(self).object_closure matches ObjectClosure::Registered(
                Visitor::ForwardWeakTable(w2),
            ) && r matches Ok(rr) && {
                &&& Heap::trace_object_post(
                    *old(heap),
                    *final(heap),
                    old(moved_givtbl)@,
                    final(moved_givtbl)@,
                    object,
                    rr,
                )
                &&& final(moved_givtbl).wf()
                &&& final(heap).spec_trace_settled(rr)
                &&& w2.pin_errors@ == if pin {
                    w.pin_errors@.push(object)
                } else {
                    w.pin_errors@
                }
            }),
    {
        let ctx = self.gc_context;
        match &mut self.object_closure {
            ObjectClosure::Unregistered => Err(
                ClosureBridgeError { gc_context: ctx, object },
            ),
            ObjectClosure::Registered(v) => match v {
                Visitor::CollectRoots(c) => Ok(c.visit_root(heap, object, pin)),
                Visitor::PinChildren(s) => Ok(s.visit_child(heap, object, pin)),
                Visitor::TraceChildren => Ok(heap.trace_object(moved_givtbl, object)),
                Visitor::ForwardWeakTable(w) => {
                    let rr = heap.trace_object(moved_givtbl, object);
                    if pin {
                        w.pin_errors.push(object);
                    }
                    Ok(rr)
                },
            },
        }
    }
}

} // verus!
