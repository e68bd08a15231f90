//! The weak/finalization processor: after the primary trace reaches a fixed
//! point and before mutators resume, it decides liveness of finalization
//! candidates, invokes the runtime's finalizer upcall for the dead, forwards
//! survivors and global weak tables, prunes the pinning-parent registry, and
//! unpins everything pinned this cycle.

use vstd::prelude::*;
use crate::ObjectReference;
use crate::heap::{Heap, HeapObject};
use crate::binding::MovedGivTbl;
use crate::ppp::{PPPRegistry, pruned_ppps, dropped_ppps, forwarded_or_self};
use crate::scanning::{pinned_objs_of, objs_of, pinned_registry_wf};
use crate::abi::{GCThreadTLS, Visitor, trace_visits_ok, all_settled, visit_answer_fixed,
    trace_growth_bounded};

verus! {

/// Whether some entry of the list has address `a`.
pub open spec fn list_addr(s: Seq<ObjectReference>, a: usize) -> bool {
    exists|k: int| 0 <= k < s.len() && s[k].addr == a
}

/// The visitor installed while the runtime updates its global weak tables:
/// every reference the runtime exposes is forwarded to its post-move
/// address, and such references must never be treated as pinning — any that
/// are is recorded as a protocol violation.
pub struct WeakTableForwarder {
    /// References the runtime wrongly presented with the pinning flag.
    pub pin_errors: Vec<ObjectReference>,
}

impl WeakTableForwarder {
    pub fn new() -> (r: WeakTableForwarder)
        ensures
            r.pin_errors@ == Seq::<ObjectReference>::empty(),
    {
        WeakTableForwarder { pin_errors: Vec::new() }
    }
}

/// Objects the runtime wants notified on death. Mutators append during
/// normal execution (under a lock in the running system); the collector
/// drains and rebuilds the list during the weak sweep, when the
/// stop-the-world protocol makes its access exclusive.
pub struct WeakProcessor {
    obj_free_candidates: Vec<ObjectReference>,
}

impl View for WeakProcessor {
    type V = Seq<ObjectReference>;

    closed spec fn view(&self) -> Seq<ObjectReference> {
        self.obj_free_candidates@
    }
}

/// The candidate list after one weak sweep: reachable candidates are kept at
/// their post-trace (possibly new) addresses, dead ones are dropped.
pub open spec fn swept_candidates(
    pre: Heap,
    post: Heap,
    s: Seq<ObjectReference>,
) -> Seq<ObjectReference>
    decreases s.len(),
{
    if s.len() == 0 {
        Seq::empty()
    } else {
        let rest = swept_candidates(pre, post, s.drop_last());
        let o = s.last();
        if pre.spec_is_live(o) {
            rest.push(
                if post@.contains_key(o.addr) && post@[o.addr].fwd is Forwarded {
                    post@[o.addr].fwd->to
                } else {
                    o
                },
            )
        } else {
            rest
        }
    }
}

/// The candidates a weak sweep hands to the finalizer upcall: exactly the
/// dead ones, each once, in order.
pub open spec fn dead_candidates(pre: Heap, s: Seq<ObjectReference>) -> Seq<ObjectReference>
    decreases s.len(),
{
    if s.len() == 0 {
        Seq::empty()
    } else {
        let rest = dead_candidates(pre, s.drop_last());
        if pre.spec_is_live(s.last()) {
            rest
        } else {
            rest.push(s.last())
        }
    }
}

/// The sweep partitions the candidate list: every candidate is either
/// retained or finalized, and every finalized one is a registered candidate
/// that was dead.
pub proof fn lemma_candidates_partition(pre: Heap, post: Heap, s: Seq<ObjectReference>)
    ensures
        dead_candidates(pre, s).len() + swept_candidates(pre, post, s).len() == s.len(),
        forall|k: int| 0 <= k < dead_candidates(pre, s).len()
            ==> s.contains(#[trigger] dead_candidates(pre, s)[k])
                && !pre.spec_is_live(dead_candidates(pre, s)[k]),
    decreases s.len(),
{
    if s.len() == 0 {
    } else {
        let dl = s.drop_last();
        lemma_candidates_partition(pre, post, dl);
        assert forall|k: int| 0 <= k < dead_candidates(pre, s).len()
            implies s.contains(#[trigger] dead_candidates(pre, s)[k])
                && !pre.spec_is_live(dead_candidates(pre, s)[k]) by {
            let d = dead_candidates(pre, s);
            if pre.spec_is_live(s.last()) {
                assert(d == dead_candidates(pre, dl));
                let e = d[k];
                assert(dl.contains(e));
                let i = choose|i: int| 0 <= i < dl.len() && dl[i] == e;
                assert(s[i] == e);
            } else {
                if k < d.len() - 1 {
                    assert(d[k] == dead_candidates(pre, dl)[k]);
                    let e = d[k];
                    assert(dl.contains(e));
                    let i = choose|i: int| 0 <= i < dl.len() && dl[i] == e;
                    assert(s[i] == e);
                } else {
                    assert(d[k] == s.last());
                    assert(s[s.len() - 1] == s.last());
                }
            }
        }
    }
}

impl Default for WeakProcessor {
    fn default() -> (r: WeakProcessor)
        ensures
            r@ == Seq::<ObjectReference>::empty(),
    {
        WeakProcessor::new()
    }
}

impl WeakProcessor {
    pub fn new() -> (r: WeakProcessor)
        ensures
            r@ == Seq::<ObjectReference>::empty(),
    {
        WeakProcessor { obj_free_candidates: Vec::new() }
    }

    /// Add an object as a candidate for the finalizer upcall. Multiple
    /// mutators call this concurrently in the running system, each append
    /// made exclusive by the list's lock.
    pub fn add_obj_free_candidate(&mut self, object: ObjectReference)
        ensures
            final(self)@ == old(self)@.push(object),
    {
        self.obj_free_candidates.push(object);
    }

    /// Take every candidate, leaving the list empty.
    pub fn get_all_obj_free_candidates(&mut self) -> (r: Vec<ObjectReference>)
        ensures
            r@ == old(self)@,
            final(self)@ == Seq::<ObjectReference>::empty(),
    {
        let mut out: Vec<ObjectReference> = Vec::new();
        std::mem::swap(&mut out, &mut self.obj_free_candidates);
        out
    }

    pub fn len(&self) -> (r: usize)
        ensures
            r == self@.len(),
    {
        self.obj_free_candidates.len()
    }

    /// Read one candidate.
    pub fn get(&self, i: usize) -> (r: ObjectReference)
        requires
            i < self@.len(),
        ensures
            r == self@[i as int],
    {
        self.obj_free_candidates[i]
    }

    /// The weak sweep, run once per cycle after the primary trace reaches a
    /// fixed point and before mutators resume. In order: take exclusive
    /// ownership of the candidate list (the running system acquires its lock
    /// without blocking — contention would mean a mutator is running during
    /// stop-the-world, a bug to crash on, not a race to wait out); invoke
    /// the runtime's finalizer upcall exactly once for each dead candidate
    /// and retain every live one at its post-move address; forward the
    /// global weak tables through the closure bridge; prune the
    /// pinning-parent registry; and unpin every root and referent pinned
    /// this cycle. Finalizer dispatch precedes the weak-table forwarding
    /// because a finalizer may itself touch weak-table state, and unpinning
    /// is last, after all forwarding that depended on pins being stable.
    pub fn process_weak_stuff(
        &mut self,
        gc_tls: &mut GCThreadTLS,
        heap: &mut Heap,
        moved_givtbl: &mut MovedGivTbl,
        ppp_registry: &mut PPPRegistry,
        pinned_roots: &mut Vec<ObjectReference>,
        pinned_ppps: &mut Vec<ObjectReference>,
        weak_table_visits: &Vec<(ObjectReference, bool)>,
    ) -> (outcome: WeakSweepOutcome)
        requires
            old(gc_tls).object_closure is Unregistered,
            old(heap).wf(),
            trace_visits_ok(*old(heap), *old(moved_givtbl), weak_table_visits@),
            forall|k: int| 0 <= k < old(self)@.len()
                ==> old(heap)@.contains_key(#[trigger] old(self)@[k].addr),
            pinned_registry_wf(old(pinned_roots)@, *old(heap)),
            pinned_registry_wf(old(pinned_ppps)@, *old(heap)),
        ensures
            final(gc_tls).object_closure is Unregistered,
            final(gc_tls).kind == old(gc_tls).kind,
            final(gc_tls).gc_context == old(gc_tls).gc_context,
            final(moved_givtbl).wf(),
            weak_sweep_heap_effect(
                *old(heap),
                *final(heap),
                old(pinned_roots)@,
                old(pinned_ppps)@,
            ),
            // Dead candidates are reported exactly once each, in order;
            // survivors are retained at their post-move addresses. Together
            // they partition the registered candidates.
            final(self)@ == swept_candidates(*old(heap), *old(heap), old(self)@),
            outcome.obj_free_calls@ == dead_candidates(*old(heap), old(self)@),
            outcome.obj_free_calls@.len() + final(self)@.len() == old(self)@.len(),
            forall|k: int| 0 <= k < outcome.obj_free_calls@.len()
                ==> old(self)@.contains(#[trigger] outcome.obj_free_calls@[k])
                    && !old(heap).spec_is_live(outcome.obj_free_calls@[k]),
            // The registry is pruned in place: live entries forwarded, dead
            // entries dropped.
            final(ppp_registry)@ == pruned_ppps(*final(heap), old(ppp_registry)@),
            forall|k: int| 0 <= k < outcome.removed_ppps@.len()
                ==> !final(heap).spec_is_live(#[trigger] outcome.removed_ppps@[k]),
            // The weak-table update returned one settled reference per
            // exposed reference, and pinning violations are reported.
            outcome.weak_table_results@.len() == weak_table_visits@.len(),
            forall|k: int| 0 <= k < outcome.weak_table_results@.len()
                ==> final(heap).spec_trace_settled(#[trigger] outcome.weak_table_results@[k]),
            // Each exposed reference is answered as the sweep's entry heap
            // dictates: one forwarded at entry with its published target, one
            // pinned or already settled with itself.
            forall|k: int| 0 <= k < weak_table_visits@.len()
                ==> visit_answer_fixed(
                    *old(heap),
                    weak_table_visits@[k].0,
                    #[trigger] outcome.weak_table_results@[k],
                ),
            // The sweep marks or forwards nothing beyond the weak-table
            // visits: an object dead at entry and not exposed by a weak
            // table is still dead afterwards — so its registry entry is
            // dropped, never resurrected.
            trace_growth_bounded(*old(heap), *final(heap), weak_table_visits@),
            outcome.removed_ppps@ == dropped_ppps(*final(heap), old(ppp_registry)@),
            outcome.pin_violations@ == pinned_objs_of(weak_table_visits@),
            // Every pin taken this cycle is released.
            final(pinned_roots)@.len() == 0,
            final(pinned_ppps)@.len() == 0,
            // The sweep leaves a stable state ...
            forall|k: int| 0 <= k < final(self)@.len()
                ==> final(heap).spec_trace_settled(#[trigger] final(self)@[k]),
            forall|k: int| 0 <= k < final(ppp_registry)@.len()
                ==> final(heap).spec_trace_settled(#[trigger] final(ppp_registry)@[k]),
            // ... and on a stable state it changes nothing: a second run
            // with no new candidates and no new garbage is a no-op.
            weak_sweep_stable(
                *old(heap),
                old(self)@,
                old(ppp_registry)@,
                old(pinned_roots)@,
                old(pinned_ppps)@,
                weak_table_visits@,
            ) ==> {
                &&& final(heap)@ == old(heap)@
                &&& final(heap).spec_copy_log() == old(heap).spec_copy_log()
                &&& final(moved_givtbl)@ == old(moved_givtbl)@
                &&& final(self)@ == old(self)@
                &&& final(ppp_registry)@ == old(ppp_registry)@
                &&& outcome.obj_free_calls@.len() == 0
                &&& outcome.weak_table_results@ == objs_of(weak_table_visits@)
            },
    {
        // Take the candidates; during stop-the-world no mutator may touch
        // the list, so ownership transfers without waiting.
        let candidates = self.get_all_obj_free_candidates();
        let ghost cand0 = candidates@;
        let n = candidates.len();
        let mut new_candidates: Vec<ObjectReference> = Vec::new();
        let mut obj_free_calls: Vec<ObjectReference> = Vec::new();
        let mut i: usize = 0;
        while i < n
            invariant
                n == cand0.len(),
                i <= n,
                candidates@ == cand0,
                heap.wf(),
                heap@ == old(heap)@,
                heap.spec_copy_log() == old(heap).spec_copy_log(),
                heap.spec_next_alloc() == old(heap).spec_next_alloc(),
                moved_givtbl@ == old(moved_givtbl)@,
                moved_givtbl.wf(),
                forall|k: int| 0 <= k < moved_givtbl@.len()
                    ==> heap@.contains_key(#[trigger] moved_givtbl@[k].0.addr),
                forall|k: int| 0 <= k < cand0.len()
                    ==> old(heap)@.contains_key(#[trigger] cand0[k].addr),
                old(heap).quiescent(),
                new_candidates@ == swept_candidates(
                    *old(heap),
                    *old(heap),
                    cand0.take(i as int),
                ),
                obj_free_calls@ == dead_candidates(*old(heap), cand0.take(i as int)),
                forall|k: int| 0 <= k < new_candidates@.len()
                    ==> old(heap).spec_trace_settled(#[trigger] new_candidates@[k]),
            decreases n - i,
        {
            let object = candidates[i];
            let ghost pre = *heap;
            if heap.is_reachable(object) {
                let new_object = heap.trace_object(moved_givtbl, object);
                proof {
                    // Tracing a live candidate during the sweep only re-marks
                    // it: either it is already forwarded, or it is already
                    // reached and stays in place.
                    assert(heap@ =~= pre@);
                    assert(old(heap).spec_trace_settled(new_object)) by {
                        if pre@[object.addr].fwd is Forwarded {
                        } else {
                            assert(pre@[object.addr].reached);
                        }
                    }
                }
                new_candidates.push(new_object);
            } else {
                obj_free_calls.push(object);
            }
            proof {
                lemma_swept_take(*old(heap), *old(heap), cand0, i as int);
                lemma_dead_take(*old(heap), cand0, i as int);
            }
            i += 1;
        }
        proof {
            assert(cand0.take(n as int) =~= cand0);
        }
        self.obj_free_candidates = new_candidates;
        // Forward the global weak tables through the closure bridge; the
        // runtime updates each of its weak entries with the returned
        // reference. Such references must never be pinning.
        let forwarder = WeakTableForwarder::new();
        let ghost h1 = *heap;
        proof {
            assert(trace_visits_ok(h1, *moved_givtbl, weak_table_visits@));
        }
        let (v, weak_table_results) = gc_tls.object_closure.set_temporarily_and_run_code(
            Visitor::ForwardWeakTable(forwarder),
            heap,
            moved_givtbl,
            weak_table_visits,
        );
        let pin_violations = match v {
            Visitor::ForwardWeakTable(w) => w.pin_errors,
            _ => {
                proof {
                    assert(false);
                }
                Vec::new()
            },
        };
        // Prune the pinning-parent registry: the sole point where its
        // addresses are brought up to date.
        let ghost h3 = *heap;
        let removed_ppps = ppp_registry.cleanup_ppps(heap);
        // Unpin every root and referent pinned this cycle, restoring full
        // movability before the next allocation cycle.
        unpin_all(heap, pinned_roots);
        pinned_roots.clear();
        let ghost h4 = *heap;
        unpin_all(heap, pinned_ppps);
        pinned_ppps.clear();
        proof {
            let orig = *old(heap);
            let fin = *heap;
            let roots0 = old(pinned_roots)@;
            let ppps0 = old(pinned_ppps)@;
            // The pruned registry is insensitive to pin bits, so pruning
            // against the pre-unpin heap equals pruning against the final
            // heap.
            assert forall|a: usize| #[trigger] h3@.contains_key(a)
                <==> #[trigger] fin@.contains_key(a) by {
                assert(h3@.dom() == h4@.dom() && h4@.dom() == fin@.dom());
            }
            lemma_pruned_congruent(h3, fin, old(ppp_registry)@);
            lemma_pruned_settled(fin, old(ppp_registry)@);
            lemma_candidates_partition(orig, orig, cand0);
            // The per-visit answers and the growth bound transfer from the
            // weak pass: the candidate phase left the heap unchanged, and
            // unpinning changes pin bits only.
            assert forall|a: usize| #[trigger] orig@.contains_key(a)
                implies fin@[a].reached == h3@[a].reached && fin@[a].fwd == h3@[a].fwd by {
                assert(h3@.contains_key(a));
            }
            assert(trace_growth_bounded(orig, fin, weak_table_visits@)) by {
                assert(trace_growth_bounded(h1, h3, weak_table_visits@));
                assert(h1@ == orig@);
            }
            // The overall heap effect.
            assert(weak_sweep_heap_effect(orig, fin, roots0, ppps0)) by {
                assert forall|a: usize| #[trigger] orig@.contains_key(a)
                    implies fin@[a].pinned == (orig@[a].pinned && !list_addr(roots0, a)
                        && !list_addr(ppps0, a)) by {
                    assert(h3@[a].pinned == orig@[a].pinned);
                }
                assert forall|k: int| 0 <= k < roots0.len()
                    implies !fin@[#[trigger] roots0[k].addr].pinned by {
                    assert(list_addr(roots0, roots0[k].addr));
                    assert(orig@.contains_key(roots0[k].addr));
                }
                assert forall|k: int| 0 <= k < ppps0.len()
                    implies !fin@[#[trigger] ppps0[k].addr].pinned by {
                    assert(list_addr(ppps0, ppps0[k].addr));
                    assert(orig@.contains_key(ppps0[k].addr));
                }
                assert forall|a: usize| #[trigger] orig@.contains_key(a)
                    implies !(fin@[a].fwd is BeingForwarded) by {
                    assert(h3@.contains_key(a));
                }
                assert forall|a: usize| #[trigger] fin@.contains_key(a)
                    implies !(fin@[a].fwd is BeingForwarded) by {
                    assert(h3@.contains_key(a));
                    assert(fin@[a].fwd == h3@[a].fwd);
                }
            }
            // Retained candidates stay settled through forwarding and
            // unpinning.
            assert forall|k: int| 0 <= k < self@.len()
                implies fin.spec_trace_settled(#[trigger] self@[k]) by {
                assert(orig.spec_trace_settled(self@[k]));
            }
            // Idempotence on a stable state.
            if weak_sweep_stable(orig, cand0, old(ppp_registry)@, roots0, ppps0,
                weak_table_visits@) {
                lemma_sweep_identity(orig, cand0);
                assert(all_settled(h1, weak_table_visits@));
                assert(fin@ =~= orig@);
                lemma_pruned_identity(fin, old(ppp_registry)@);
            }
        }
        WeakSweepOutcome { obj_free_calls, weak_table_results, pin_violations, removed_ppps }
    }
}

/// Unfolding `swept_candidates` one element at a time.
proof fn lemma_swept_take(pre: Heap, post: Heap, s: Seq<ObjectReference>, j: int)
    requires
        0 <= j < s.len(),
    ensures
        swept_candidates(pre, post, s.take(j + 1)) == (if pre.spec_is_live(s[j]) {
            swept_candidates(pre, post, s.take(j)).push(
                if post@.contains_key(s[j].addr) && post@[s[j].addr].fwd is Forwarded {
                    post@[s[j].addr].fwd->to
                } else {
                    s[j]
                },
            )
        } else {
            swept_candidates(pre, post, s.take(j))
        }),
{
    assert(s.take(j + 1).drop_last() =~= s.take(j));
    assert(s.take(j + 1).last() == s[j]);
}

/// Unfolding `dead_candidates` one element at a time.
pub proof fn lemma_dead_take(pre: Heap, s: Seq<ObjectReference>, j: int)
    requires
        0 <= j < s.len(),
    ensures
        dead_candidates(pre, s.take(j + 1)) == (if pre.spec_is_live(s[j]) {
            dead_candidates(pre, s.take(j))
        } else {
            dead_candidates(pre, s.take(j)).push(s[j])
        }),
{
    assert(s.take(j + 1).drop_last() =~= s.take(j));
    assert(s.take(j + 1).last() == s[j]);
}

/// Pruning reads only liveness and forwarding, so two heaps that agree on
/// those agree on the pruned registry.
proof fn lemma_pruned_congruent(h1: Heap, h2: Heap, s: Seq<ObjectReference>)
    requires
        forall|a: usize| #[trigger] h1@.contains_key(a) <==> #[trigger] h2@.contains_key(a),
        forall|a: usize| #[trigger] h1@.contains_key(a) ==> h2@[a].fwd == h1@[a].fwd
            && h2@[a].reached == h1@[a].reached,
    ensures
        pruned_ppps(h1, s) == pruned_ppps(h2, s),
        dropped_ppps(h1, s) == dropped_ppps(h2, s),
    decreases s.len(),
{
    if s.len() == 0 {
    } else {
        lemma_pruned_congruent(h1, h2, s.drop_last());
        let o = s.last();
        assert(h1.spec_is_live(o) == h2.spec_is_live(o));
        assert(forwarded_or_self(h1, o) == forwarded_or_self(h2, o));
    }
}

/// Pruning a registry whose entries the trace has already settled leaves it
/// unchanged.
proof fn lemma_pruned_identity(heap: Heap, s: Seq<ObjectReference>)
    requires
        forall|k: int| 0 <= k < s.len() ==> heap.spec_trace_settled(#[trigger] s[k]),
    ensures
        pruned_ppps(heap, s) == s,
    decreases s.len(),
{
    if s.len() == 0 {
        assert(pruned_ppps(heap, s) =~= s);
    } else {
        assert(forall|k: int| 0 <= k < s.drop_last().len()
            ==> heap.spec_trace_settled(#[trigger] s.drop_last()[k]));
        lemma_pruned_identity(heap, s.drop_last());
        let o = s.last();
        assert(heap.spec_trace_settled(o));
        assert(heap.spec_is_live(o));
        assert(forwarded_or_self(heap, o) == o);
        assert(s.drop_last().push(o) =~= s);
    }
}

/// Every entry of a pruned registry is settled: a live entry is either
/// forwarded — and its target is marked, unforwarded and managed — or it is
/// itself marked and unforwarded.
proof fn lemma_pruned_settled(heap: Heap, s: Seq<ObjectReference>)
    requires
        heap.wf(),
        heap.quiescent(),
    ensures
        forall|k: int| 0 <= k < pruned_ppps(heap, s).len()
            ==> heap.spec_trace_settled(#[trigger] pruned_ppps(heap, s)[k]),
    decreases s.len(),
{
    if s.len() == 0 {
    } else {
        lemma_pruned_settled(heap, s.drop_last());
        let o = s.last();
        let rest = pruned_ppps(heap, s.drop_last());
        if heap.spec_is_live(o) {
            let f = forwarded_or_self(heap, o);
            assert(heap.spec_trace_settled(f)) by {
                if heap@[o.addr].fwd is Forwarded {
                } else {
                    assert(heap@[o.addr].reached);
                    assert(!(heap@[o.addr].fwd is BeingForwarded));
                }
            }
            assert(pruned_ppps(heap, s) == rest.push(f));
            assert forall|k: int| 0 <= k < rest.push(f).len()
                implies heap.spec_trace_settled(#[trigger] rest.push(f)[k]) by {
                if k < rest.len() {
                    assert(rest.push(f)[k] == rest[k]);
                } else {
                    assert(rest.push(f)[k] == f);
                }
            }
        } else {
            assert(pruned_ppps(heap, s) == rest);
        }
    }
}

/// Sweeping a candidate list whose entries the trace has already settled
/// retains every entry unchanged and reports nothing dead.
proof fn lemma_sweep_identity(heap: Heap, s: Seq<ObjectReference>)
    requires
        forall|k: int| 0 <= k < s.len() ==> heap.spec_trace_settled(#[trigger] s[k]),
    ensures
        swept_candidates(heap, heap, s) == s,
        dead_candidates(heap, s) == Seq::<ObjectReference>::empty(),
    decreases s.len(),
{
    if s.len() == 0 {
        assert(swept_candidates(heap, heap, s) =~= s);
    } else {
        assert(forall|k: int| 0 <= k < s.drop_last().len()
            ==> heap.spec_trace_settled(#[trigger] s.drop_last()[k]));
        lemma_sweep_identity(heap, s.drop_last());
        let o = s.last();
        assert(heap.spec_trace_settled(o));
        assert(heap.spec_is_live(o));
        assert(s.drop_last().push(o) =~= s);
    }
}

/// One unpinning step extends the pointwise unpinning effect by one entry.
proof fn lemma_unpin_step(
    orig: Map<usize, HeapObject>,
    pre: Map<usize, HeapObject>,
    post: Map<usize, HeapObject>,
    done: Seq<ObjectReference>,
    object: ObjectReference,
)
    requires
        post == if pre.contains_key(object.addr) {
            pre.insert(object.addr, HeapObject { pinned: false, ..pre[object.addr] })
        } else {
            pre
        },
        pre.dom() == orig.dom(),
        forall|a: usize| #[trigger] orig.contains_key(a) ==> pre[a] == (if list_addr(done, a) {
            HeapObject { pinned: false, ..orig[a] }
        } else {
            orig[a]
        }),
    ensures
        post.dom() == orig.dom(),
        forall|a: usize| #[trigger] orig.contains_key(a) ==> post[a] == (if list_addr(
            done.push(object),
            a,
        ) {
            HeapObject { pinned: false, ..orig[a] }
        } else {
            orig[a]
        }),
{
    let done2 = done.push(object);
    assert forall|a: usize| list_addr(done2, a) <==> (list_addr(done, a) || a == object.addr) by {
        if list_addr(done2, a) {
            let k = choose|k: int| 0 <= k < done2.len() && done2[k].addr == a;
            if k < done.len() {
                assert(done[k].addr == a);
            }
        }
        if list_addr(done, a) {
            let k = choose|k: int| 0 <= k < done.len() && done[k].addr == a;
            assert(done2[k].addr == a);
        }
        if a == object.addr {
            assert(done2[done2.len() - 1].addr == a);
        }
    }
    assert(post.dom() =~= orig.dom());
}

/// Clear the pin bit of every listed object.
fn unpin_all(heap: &mut Heap, list: &Vec<ObjectReference>)
    requires
        old(heap).wf(),
    ensures
        final(heap).wf(),
        final(heap).spec_copy_log() == old(heap).spec_copy_log(),
        final(heap).spec_next_alloc() == old(heap).spec_next_alloc(),
        final(heap)@.dom() == old(heap)@.dom(),
        forall|a: usize| #[trigger] old(heap)@.contains_key(a) ==> final(heap)@[a] == (
        if list_addr(list@, a) {
            HeapObject { pinned: false, ..old(heap)@[a] }
        } else {
            old(heap)@[a]
        }),
{
    let n = list.len();
    let mut i: usize = 0;
    while i < n
        invariant
            n == list@.len(),
            i <= n,
            heap.wf(),
            heap.spec_copy_log() == old(heap).spec_copy_log(),
            heap.spec_next_alloc() == old(heap).spec_next_alloc(),
            heap@.dom() == old(heap)@.dom(),
            forall|a: usize| #[trigger] old(heap)@.contains_key(a) ==> heap@[a] == (
            if list_addr(list@.take(i as int), a) {
                HeapObject { pinned: false, ..old(heap)@[a] }
            } else {
                old(heap)@[a]
            }),
        decreases n - i,
    {
        let o = list[i];
        let ghost pre = heap@;
        heap.unpin_object(o);
        proof {
            lemma_unpin_step(old(heap)@, pre, heap@, list@.take(i as int), o);
            assert(list@.take(i + 1) =~= list@.take(i as int).push(list@[i as int]));
        }
        i += 1;
    }
    proof {
        assert(list@.take(n as int) =~= list@);
    }
}

/// The outcome of one weak sweep, handed back to the embedder: the objects
/// whose finalizer upcall was invoked (each exactly once, in registration
/// order), the post-move references returned to the runtime's weak-table
/// update, the weak-table references wrongly presented as pinning, and the
/// registry entries dropped as dead.
pub struct WeakSweepOutcome {
    pub obj_free_calls: Vec<ObjectReference>,
    pub weak_table_results: Vec<ObjectReference>,
    pub pin_violations: Vec<ObjectReference>,
    pub removed_ppps: Vec<ObjectReference>,
}

/// A state on which the weak sweep is idempotent: every candidate and every
/// registry entry is settled, nothing is pinned from the previous cycle, and
/// every reference the runtime's weak tables expose is settled.
pub open spec fn weak_sweep_stable(
    heap: Heap,
    candidates: Seq<ObjectReference>,
    ppps: Seq<ObjectReference>,
    pinned_roots: Seq<ObjectReference>,
    pinned_ppps: Seq<ObjectReference>,
    weak_visits: Seq<(ObjectReference, bool)>,
) -> bool {
    &&& (forall|k: int| 0 <= k < candidates.len()
            ==> heap.spec_trace_settled(#[trigger] candidates[k]))
    &&& (forall|k: int| 0 <= k < ppps.len() ==> heap.spec_trace_settled(#[trigger] ppps[k]))
    &&& pinned_roots.len() == 0
    &&& pinned_ppps.len() == 0
    &&& all_settled(heap, weak_visits)
}

/// How the weak sweep as a whole may change the heap: objects are only
/// added, settled and forwarded objects keep their forwarding state and
/// mark, pinned objects are never moved, and afterwards nothing recorded in
/// the two pinned registries is still pinned.
pub open spec fn weak_sweep_heap_effect(
    pre: Heap,
    post: Heap,
    roots: Seq<ObjectReference>,
    ppps: Seq<ObjectReference>,
) -> bool {
    &&& post.wf()
    &&& post.quiescent()
    &&& (forall|a: usize| #[trigger] pre@.contains_key(a) ==> post@.contains_key(a))
    &&& (forall|a: usize| #[trigger] pre@.contains_key(a) && pre@[a].pinned
            ==> post@[a].fwd == pre@[a].fwd)
    &&& (forall|a: usize| #[trigger] pre@.contains_key(a) && pre@[a].reached
            && pre@[a].fwd is NotForwarded
            ==> post@[a].fwd is NotForwarded && post@[a].reached
                && post@[a].flags == pre@[a].flags && post@[a].payload == pre@[a].payload)
    &&& (forall|a: usize| #[trigger] pre@.contains_key(a) && pre@[a].fwd is Forwarded
            ==> post@[a].fwd == pre@[a].fwd)
    &&& (forall|a: usize| #[trigger] pre@.contains_key(a)
            ==> post@[a].pinned == (pre@[a].pinned && !list_addr(roots, a)
                && !list_addr(ppps, a)))
    &&& (forall|k: int| 0 <= k < roots.len()
            ==> !post@[#[trigger] roots[k].addr].pinned)
    &&& (forall|k: int| 0 <= k < ppps.len()
            ==> !post@[#[trigger] ppps[k].addr].pinned)
}

} // verus!
