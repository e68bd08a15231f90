//! The collection orchestrator: stop-the-world sequencing. On a
//! stop-the-world request the runtime's halt upcall runs first, the
//! pinning-parent registry is traversed (so its pinning decisions are
//! visible to the primary scan), the per-thread and global root scans run,
//! the engine traces the batched roots, the weak sweep runs, and the resume
//! upcall runs unconditionally — it is the only path by which the world
//! restarts, and it is not skipped on any exit path; consistency-check
//! failures are reported, never fatal, so the world is never left stopped.
//!
//! The upcalls the orchestrator makes are recorded in an event log so that
//! the embedder performs them in exactly this order.

use vstd::prelude::*;
use crate::ObjectReference;
use crate::heap::Heap;
use crate::binding::RubyBinding;
use crate::abi::{GCThreadTLS, trace_effect, trace_visits_ok};
use crate::scanning::{VMScanning, RootsWorkFactory, objs_of, pinned_registry_wf, flat_batches,
    lemma_flat_split};
use crate::weak_proc::{WeakSweepOutcome, weak_sweep_heap_effect, list_addr, dead_candidates,
    lemma_dead_take};
use crate::ppp::pruned_ppps;

verus! {

/// One upcall or engine action the orchestrator performs, in order.
#[derive(Clone, Copy, PartialEq, Eq, Structural, Debug)]
pub enum GcEvent {
    /// The runtime halts all mutator threads.
    StopTheWorld,
    /// The registered pinning parents are traversed, driving the runtime's
    /// scan upcall for each so their referents are pinned before any root
    /// scan.
    ScanPinningParents,
    /// The runtime enumerates one mutator thread's roots.
    ScanThreadRoot { index: usize },
    /// The runtime enumerates the global, VM-specific roots.
    ScanVmSpecificRoots,
    /// The runtime's finalizer upcall runs for one dead object.
    CallObjFree { object: ObjectReference },
    /// The runtime updates its global weak tables through the bridge.
    UpdateGlobalWeakTables,
    /// The runtime resumes all mutator threads.
    ResumeMutators,
    /// A mutator blocks until the collection it requested is done.
    BlockForGC,
}

/// The role and engine context a new collector thread is spawned with.
pub enum GCThreadContext {
    Controller { gc_context: usize },
    Worker { gc_context: usize },
}

/// The per-thread scan events of one cycle, one per mutator thread.
pub open spec fn scan_events(n: int) -> Seq<GcEvent>
    recommends
        n >= 0,
{
    Seq::new(n as nat, |i: int| GcEvent::ScanThreadRoot { index: i as usize })
}

/// The finalizer events of one cycle, one per dead candidate, in order.
pub open spec fn obj_free_events(dead: Seq<ObjectReference>) -> Seq<GcEvent> {
    dead.map_values(|o: ObjectReference| GcEvent::CallObjFree { object: o })
}

/// The roots recorded by the first `up_to` per-thread scans, in order.
pub open spec fn thread_root_objs(
    thread_roots: Seq<Vec<(ObjectReference, bool)>>,
    up_to: int,
) -> Seq<ObjectReference>
    decreases up_to,
{
    if up_to <= 0 {
        Seq::empty()
    } else {
        thread_root_objs(thread_roots, up_to - 1) + objs_of(thread_roots[up_to - 1]@)
    }
}

/// The exact upcall order of one stop-the-world cycle: halt, the
/// pinning-parent traversal, one root scan per mutator thread, the global
/// scan, the finalizer upcalls of the weak sweep, the weak-table update,
/// and exactly one resume at the very end.
pub open spec fn cycle_events(n_threads: int, dead: Seq<ObjectReference>) -> Seq<GcEvent> {
    seq![GcEvent::StopTheWorld, GcEvent::ScanPinningParents] + scan_events(n_threads)
        + seq![GcEvent::ScanVmSpecificRoots] + obj_free_events(dead)
        + seq![GcEvent::UpdateGlobalWeakTables, GcEvent::ResumeMutators]
}

/// Law: in a cycle's event log the halt comes first, the pinning-parent
/// traversal precedes every root scan, the finalizer upcalls precede the
/// weak-table update, and the resume happens exactly once, at the very end
/// — whatever the weak sweep decided and whatever any consistency check
/// reported.
pub proof fn lemma_cycle_event_discipline(events: Seq<GcEvent>, n_threads: int, dead: Seq<
    ObjectReference,
>)
    requires
        n_threads >= 0,
        events == cycle_events(n_threads, dead),
    ensures
        events.len() == n_threads + dead.len() + 5,
        events[0] == GcEvent::StopTheWorld,
        events[1] == GcEvent::ScanPinningParents,
        events[events.len() - 2] == GcEvent::UpdateGlobalWeakTables,
        events.last() == GcEvent::ResumeMutators,
        forall|k: int| 0 <= k < events.len()
            ==> (events[k] == GcEvent::ResumeMutators <==> k == events.len() - 1),
        forall|k: int| 0 <= k < events.len()
            && ((#[trigger] events[k]) is ScanThreadRoot || events[k] is ScanVmSpecificRoots)
            ==> 1 < k < events.len() - 2,
        forall|k: int| 0 <= k < events.len() && (#[trigger] events[k]) is CallObjFree
            ==> n_threads + 2 < k < events.len() - 2,
{
    assert forall|k: int| 0 <= k < events.len()
        implies (events[k] == GcEvent::ResumeMutators <==> k == events.len() - 1) by {
        if k < events.len() - 1 {
            if k == 0 {
                assert(events[k] == GcEvent::StopTheWorld);
            } else if k == 1 {
                assert(events[k] == GcEvent::ScanPinningParents);
            } else if k <= n_threads + 1 {
                assert(events[k] == scan_events(n_threads)[k - 2]);
            } else if k == n_threads + 2 {
                assert(events[k] == GcEvent::ScanVmSpecificRoots);
            } else if k < events.len() - 2 {
                assert(events[k] == obj_free_events(dead)[k - n_threads - 3]);
            } else {
                assert(events[k] == GcEvent::UpdateGlobalWeakTables);
            }
        }
    }
    assert forall|k: int| 0 <= k < events.len()
        && ((#[trigger] events[k]) is ScanThreadRoot || events[k] is ScanVmSpecificRoots)
        implies 1 < k < events.len() - 2 by {
        if k == 0 {
            assert(events[k] == GcEvent::StopTheWorld);
        }
        if k == 1 {
            assert(events[k] == GcEvent::ScanPinningParents);
        }
        if k == events.len() - 2 {
            assert(events[k] == GcEvent::UpdateGlobalWeakTables);
        }
        if k == events.len() - 1 {
            assert(events[k] == GcEvent::ResumeMutators);
        }
        if 2 <= k < events.len() - 2 && k > n_threads + 2 {
            assert(events[k] == obj_free_events(dead)[k - n_threads - 3]);
        }
    }
    assert forall|k: int| 0 <= k < events.len() && (#[trigger] events[k]) is CallObjFree
        implies n_threads + 2 < k < events.len() - 2 by {
        if k == 0 {
            assert(events[k] == GcEvent::StopTheWorld);
        }
        if k == 1 {
            assert(events[k] == GcEvent::ScanPinningParents);
        }
        if 2 <= k <= n_threads + 1 {
            assert(events[k] == scan_events(n_threads)[k - 2]);
        }
        if k == n_threads + 2 {
            assert(events[k] == GcEvent::ScanVmSpecificRoots);
        }
        if k == events.len() - 2 {
            assert(events[k] == GcEvent::UpdateGlobalWeakTables);
        }
        if k == events.len() - 1 {
            assert(events[k] == GcEvent::ResumeMutators);
        }
    }
}

/// Law: an object pinned when tracing begins keeps its address through the
/// trace and the weak sweep — it is never forwarded, so a reference to it
/// read after the trace equals the reference read before — and the pins of
/// a cycle are released exactly once: the pinned registries are
/// duplicate-free, the sweep clears each recorded entry's pin bit, and no
/// object's pin bit changes except through those registries.
pub proof fn lemma_pinned_objects_stay_put(
    pre: Heap,
    mid: Heap,
    post: Heap,
    roots: Seq<ObjectReference>,
    ppps: Seq<ObjectReference>,
)
    requires
        trace_effect(pre, mid),
        weak_sweep_heap_effect(mid, post, roots, ppps),
        pinned_registry_wf(roots, mid),
        pinned_registry_wf(ppps, mid),
    ensures
        forall|a: usize| #[trigger] pre@.contains_key(a) && pre@[a].pinned
            ==> post@.contains_key(a) && post@[a].fwd == pre@[a].fwd,
        forall|k: int| 0 <= k < roots.len() ==> !post@[#[trigger] roots[k].addr].pinned,
        forall|k: int| 0 <= k < ppps.len() ==> !post@[#[trigger] ppps[k].addr].pinned,
        forall|i: int, j: int|
            0 <= i < roots.len() && 0 <= j < roots.len() && i != j ==> roots[i] != roots[j],
        forall|i: int, j: int|
            0 <= i < ppps.len() && 0 <= j < ppps.len() && i != j ==> ppps[i] != ppps[j],
        forall|a: usize| #[trigger] pre@.contains_key(a) && !list_addr(roots, a)
            && !list_addr(ppps, a) ==> post@[a].pinned == pre@[a].pinned,
{
    assert forall|a: usize| #[trigger] pre@.contains_key(a) && pre@[a].pinned
        implies post@.contains_key(a) && post@[a].fwd == pre@[a].fwd by {
        assert(mid@.contains_key(a));
        assert(mid@[a].pinned == pre@[a].pinned);
        assert(mid@[a].fwd == pre@[a].fwd);
    }
    assert forall|a: usize| #[trigger] pre@.contains_key(a) && !list_addr(roots, a)
        && !list_addr(ppps, a) implies post@[a].pinned == pre@[a].pinned by {
        assert(mid@.contains_key(a));
        assert(mid@[a].pinned == pre@[a].pinned);
    }
}

pub struct VMCollection {}

impl VMCollection {
    /// Resume all mutator threads: the one path by which the world restarts.
    pub fn resume_mutators(events: &mut Vec<GcEvent>)
        ensures
            final(events)@ == old(events)@.push(GcEvent::ResumeMutators),
    {
        events.push(GcEvent::ResumeMutators);
    }

    /// A mutator that triggered a collection blocks until it completes.
    pub fn block_for_gc(events: &mut Vec<GcEvent>)
        ensures
            final(events)@ == old(events)@.push(GcEvent::BlockForGC),
    {
        events.push(GcEvent::BlockForGC);
    }

    /// Prepare the thread-local context for a newly spawned collector thread
    /// and record the thread in the process-wide bookkeeping. The embedder
    /// creates the native thread, attaches the returned context, and hands
    /// control to the engine's worker or controller loop; on exit it calls
    /// `RubyBinding::unregister_gc_thread`.
    pub fn setup_gc_thread_tls(
        ctx: GCThreadContext,
        binding: &mut RubyBinding,
        thread_id: u64,
    ) -> (r: GCThreadTLS)
        ensures
            r.object_closure is Unregistered,
            ctx matches GCThreadContext::Controller { gc_context }
                ==> r.kind is Controller && r.gc_context == gc_context,
            ctx matches GCThreadContext::Worker { gc_context }
                ==> r.kind is Worker && r.gc_context == gc_context,
            final(binding).gc_threads@ == old(binding).gc_threads@.push(thread_id),
            final(binding).ppp_registry@ == old(binding).ppp_registry@,
            final(binding).weak_proc@ == old(binding).weak_proc@,
            final(binding).moved_givtbl@ == old(binding).moved_givtbl@,
            final(binding).root_set@ == old(binding).root_set@,
            final(binding).pinned_roots@ == old(binding).pinned_roots@,
            final(binding).pinned_ppps@ == old(binding).pinned_ppps@,
    {
        binding.register_gc_thread(thread_id);
        match ctx {
            GCThreadContext::Controller { gc_context } => GCThreadTLS::for_controller(gc_context),
            GCThreadContext::Worker { gc_context } => GCThreadTLS::for_worker(gc_context),
        }
    }

    /// Halt all mutators and make the pinning-parent registry's decisions
    /// visible before any root scan: the halt upcall is recorded first, then
    /// the registry traversal pins every parent's referent.
    pub fn stop_all_mutators(
        gc_tls: &mut GCThreadTLS,
        heap: &mut Heap,
        binding: &mut RubyBinding,
        ppp_children: &Vec<(ObjectReference, bool)>,
        events: &mut Vec<GcEvent>,
    )
        requires
            old(gc_tls).object_closure is Unregistered,
            old(heap).wf(),
            pinned_registry_wf(old(binding).pinned_ppps@, *old(heap)),
        ensures
            final(events)@ == old(events)@.push(GcEvent::StopTheWorld).push(
                GcEvent::ScanPinningParents,
            ),
            final(gc_tls).object_closure is Unregistered,
            final(gc_tls).kind == old(gc_tls).kind,
            final(gc_tls).gc_context == old(gc_tls).gc_context,
            final(heap).wf(),
            crate::abi::pin_effect(old(heap)@, final(heap)@, ppp_children@),
            final(heap).spec_copy_log() == old(heap).spec_copy_log(),
            final(heap).spec_next_alloc() == old(heap).spec_next_alloc(),
            pinned_registry_wf(final(binding).pinned_ppps@, *final(heap)),
            crate::abi::records_newly_pinned(
                old(binding).pinned_ppps@,
                final(binding).pinned_ppps@,
                *old(heap),
                ppp_children@,
            ),
            final(binding).ppp_registry@ == old(binding).ppp_registry@,
            final(binding).weak_proc@ == old(binding).weak_proc@,
            final(binding).moved_givtbl@ == old(binding).moved_givtbl@,
            final(binding).root_set@ == old(binding).root_set@,
            final(binding).pinned_roots@ == old(binding).pinned_roots@,
    {
        events.push(GcEvent::StopTheWorld);
        events.push(GcEvent::ScanPinningParents);
        let registry = &binding.ppp_registry;
        registry.pin_ppp_children(
            gc_tls,
            heap,
            &mut binding.moved_givtbl,
            &mut binding.pinned_ppps,
            ppp_children,
        );
    }

    /// One whole stop-the-world collection: halt the mutators, pin the
    /// pinning parents' referents, scan every mutator thread's roots and the
    /// global roots into work batches, trace the batched roots, run the weak
    /// sweep, check that every recorded root survived (reporting, never
    /// aborting, on failure), and resume the mutators — unconditionally, on
    /// every path, so the world is never left stopped. Returns the upcall
    /// log, the weak sweep's outcome, the work batches, and the recorded
    /// roots the consistency check found dead.
    pub fn do_stop_the_world_gc(
        gc_tls: &mut GCThreadTLS,
        heap: &mut Heap,
        binding: &mut RubyBinding,
        factory: RootsWorkFactory,
        ppp_children: &Vec<(ObjectReference, bool)>,
        thread_roots: &Vec<Vec<(ObjectReference, bool)>>,
        vm_roots: &Vec<(ObjectReference, bool)>,
        weak_table_visits: &Vec<(ObjectReference, bool)>,
    ) -> (r: (Vec<GcEvent>, WeakSweepOutcome, RootsWorkFactory, Vec<ObjectReference>))
        requires
            old(gc_tls).object_closure is Unregistered,
            old(heap).wf(),
            old(heap).quiescent(),
            old(binding).moved_givtbl.wf(),
            forall|i: int| 0 <= i < old(binding).moved_givtbl@.len()
                ==> old(heap)@.contains_key(#[trigger] old(binding).moved_givtbl@[i].0.addr),
            pinned_registry_wf(old(binding).pinned_roots@, *old(heap)),
            pinned_registry_wf(old(binding).pinned_ppps@, *old(heap)),
            factory@.len() == 0,
            forall|t: int, k: int|
                0 <= t < thread_roots@.len() && 0 <= k < thread_roots@[t]@.len()
                    ==> old(heap)@.contains_key((#[trigger] thread_roots@[t]@[k]).0.addr),
            forall|k: int| 0 <= k < vm_roots@.len()
                ==> old(heap)@.contains_key((#[trigger] vm_roots@[k]).0.addr),
            forall|k: int| 0 <= k < weak_table_visits@.len()
                ==> old(heap)@.contains_key((#[trigger] weak_table_visits@[k]).0.addr),
            forall|k: int| 0 <= k < old(binding).weak_proc@.len()
                ==> old(heap)@.contains_key((#[trigger] old(binding).weak_proc@[k]).addr),
        ensures
            r.0@ == cycle_events(thread_roots@.len() as int, r.1.obj_free_calls@),
            final(gc_tls).object_closure is Unregistered,
            final(gc_tls).kind == old(gc_tls).kind,
            final(gc_tls).gc_context == old(gc_tls).gc_context,
            final(heap).wf(),
            final(heap).quiescent(),
            forall|a: usize| #[trigger] old(heap)@.contains_key(a)
                ==> final(heap)@.contains_key(a),
            final(binding).root_set@.len() == 0,
            final(binding).pinned_roots@.len() == 0,
            final(binding).pinned_ppps@.len() == 0,
            final(binding).ppp_registry@ == pruned_ppps(
                *final(heap),
                old(binding).ppp_registry@,
            ),
            // The work handed to the collector is exactly the scanned roots.
            flat_batches(r.2@) == thread_root_objs(
                thread_roots@,
                thread_roots@.len() as int,
            ) + objs_of(vm_roots@),
            // The finalized and retained candidates partition the registered
            // ones; every finalized object was a registered candidate and was
            // already dead when the cycle began.
            r.1.obj_free_calls@.len() + final(binding).weak_proc@.len()
                == old(binding).weak_proc@.len(),
            forall|k: int| 0 <= k < r.1.obj_free_calls@.len()
                ==> old(binding).weak_proc@.contains(#[trigger] r.1.obj_free_calls@[k])
                    && !old(heap).spec_is_live(r.1.obj_free_calls@[k]),
            r.1.weak_table_results@.len() == weak_table_visits@.len(),
            forall|k: int| 0 <= k < r.1.weak_table_results@.len()
                ==> final(heap).spec_trace_settled(#[trigger] r.1.weak_table_results@[k]),
            r.1.pin_violations@ == crate::scanning::pinned_objs_of(weak_table_visits@),
            forall|k: int| 0 <= k < final(binding).weak_proc@.len()
                ==> final(heap).spec_trace_settled(#[trigger] final(binding).weak_proc@[k]),
            forall|k: int| 0 <= k < final(binding).ppp_registry@.len()
                ==> final(heap).spec_trace_settled(#[trigger] final(binding).ppp_registry@[k]),
            // The consistency check reports exactly the recorded roots that
            // did not survive the cycle, in recording order.
            r.3@ == dead_candidates(
                *final(heap),
                old(binding).root_set@ + thread_root_objs(
                    thread_roots@,
                    thread_roots@.len() as int,
                ) + objs_of(vm_roots@),
            ),
            forall|k: int| 0 <= k < r.3@.len()
                ==> !final(heap).spec_is_live(#[trigger] r.3@[k]),
    {
        let ghost h0 = *heap;
        let mut events: Vec<GcEvent> = Vec::new();
        Self::stop_all_mutators(gc_tls, heap, binding, ppp_children, &mut events);
        proof {
            assert(events@ =~= seq![GcEvent::StopTheWorld, GcEvent::ScanPinningParents]
                + scan_events(0));
            assert forall|a: usize| #[trigger] h0@.contains_key(a)
                implies heap@.contains_key(a) && heap@[a].fwd == h0@[a].fwd
                    && heap@[a].reached == h0@[a].reached by {}
            assert(heap@.dom() == h0@.dom());
        }
        let mut fac = factory;
        let nt = thread_roots.len();
        let mut t: usize = 0;
        while t < nt
            invariant
                nt == thread_roots@.len(),
                t <= nt,
                gc_tls.object_closure is Unregistered,
                gc_tls.kind == old(gc_tls).kind,
                gc_tls.gc_context == old(gc_tls).gc_context,
                heap.wf(),
                heap@.dom() == h0@.dom(),
                forall|a: usize| #[trigger] h0@.contains_key(a)
                    ==> heap@[a].fwd == h0@[a].fwd && heap@[a].reached == h0@[a].reached,
                h0.wf(),
                h0.quiescent(),
                h0@ == old(heap)@,
                binding.moved_givtbl@ == old(binding).moved_givtbl@,
                binding.moved_givtbl.wf(),
                pinned_registry_wf(binding.pinned_roots@, *heap),
                pinned_registry_wf(binding.pinned_ppps@, *heap),
                binding.ppp_registry@ == old(binding).ppp_registry@,
                binding.weak_proc@ == old(binding).weak_proc@,
                binding.root_set@ == old(binding).root_set@ + thread_root_objs(
                    thread_roots@,
                    t as int,
                ),
                events@ == seq![GcEvent::StopTheWorld, GcEvent::ScanPinningParents]
                    + scan_events(t as int),
                flat_batches(fac@) == thread_root_objs(thread_roots@, t as int),
                forall|i: int, k: int|
                    0 <= i < fac@.len() && 0 <= k < fac@[i].len()
                        ==> h0@.contains_key((#[trigger] fac@[i][k]).addr),
                forall|t2: int, k: int|
                    0 <= t2 < thread_roots@.len() && 0 <= k < thread_roots@[t2]@.len()
                        ==> h0@.contains_key((#[trigger] thread_roots@[t2]@[k]).0.addr),
                forall|k: int| 0 <= k < vm_roots@.len()
                    ==> h0@.contains_key((#[trigger] vm_roots@[k]).0.addr),
            decreases nt - t,
        {
            let visits = &thread_roots[t];
            let ghost pre_heap = *heap;
            let ghost pre_fac = fac@;
            fac = VMScanning::scan_thread_root(
                gc_tls,
                heap,
                &mut binding.moved_givtbl,
                fac,
                &mut binding.root_set,
                &mut binding.pinned_roots,
                visits,
            );
            events.push(GcEvent::ScanThreadRoot { index: t });
            proof {
                assert(events@ =~= seq![GcEvent::StopTheWorld, GcEvent::ScanPinningParents]
                    + scan_events(t + 1));
                assert(binding.root_set@ =~= old(binding).root_set@ + thread_root_objs(
                    thread_roots@,
                    t + 1,
                ));
                assert forall|a: usize| #[trigger] h0@.contains_key(a)
                    implies heap@[a].fwd == h0@[a].fwd && heap@[a].reached == h0@[a].reached by {
                    assert(pre_heap@.contains_key(a));
                }
                assert(heap@.dom() == h0@.dom());
                assert forall|i: int| 0 <= i < binding.pinned_ppps@.len()
                    implies heap@.contains_key(#[trigger] binding.pinned_ppps@[i].addr)
                        && heap@[binding.pinned_ppps@[i].addr].pinned by {
                    assert(pre_heap@[binding.pinned_ppps@[i].addr].pinned);
                }
                lemma_flat_split(fac@, pre_fac.len() as int);
                assert(fac@.take(pre_fac.len() as int) == pre_fac);
                assert(flat_batches(fac@) == thread_root_objs(thread_roots@, t + 1));
                assert forall|i: int, k: int|
                    0 <= i < fac@.len() && 0 <= k < fac@[i].len()
                    implies h0@.contains_key((#[trigger] fac@[i][k]).addr) by {
                    if i >= pre_fac.len() {
                        let news = fac@.skip(pre_fac.len() as int);
                        crate::scanning::lemma_flat_elem(news, i - pre_fac.len(), k);
                        let e = fac@[i][k];
                        assert(objs_of(visits@).contains(e));
                        let j = choose|j: int| 0 <= j < objs_of(visits@).len()
                            && objs_of(visits@)[j] == e;
                        assert(visits@[j].0 == e);
                    } else {
                        assert(fac@[i] == pre_fac[i]);
                    }
                }
            }
            t += 1;
        }
        let ghost pre_vm_heap = *heap;
        let ghost pre_vm_fac = fac@;
        fac = VMScanning::scan_vm_specific_roots(
            gc_tls,
            heap,
            &mut binding.moved_givtbl,
            fac,
            &mut binding.root_set,
            &mut binding.pinned_roots,
            vm_roots,
        );
        events.push(GcEvent::ScanVmSpecificRoots);
        let ghost recorded = old(binding).root_set@ + thread_root_objs(
            thread_roots@,
            thread_roots@.len() as int,
        ) + objs_of(vm_roots@);
        proof {
            assert(binding.root_set@ =~= recorded);
            lemma_flat_split(fac@, pre_vm_fac.len() as int);
            assert(fac@.take(pre_vm_fac.len() as int) == pre_vm_fac);
            assert(flat_batches(fac@) == thread_root_objs(
                thread_roots@,
                thread_roots@.len() as int,
            ) + objs_of(vm_roots@));
            assert forall|a: usize| #[trigger] h0@.contains_key(a)
                implies heap@[a].fwd == h0@[a].fwd && heap@[a].reached == h0@[a].reached by {
                assert(pre_vm_heap@.contains_key(a));
            }
            assert(heap@.dom() == h0@.dom());
            assert forall|i: int| 0 <= i < binding.pinned_ppps@.len()
                implies heap@.contains_key(#[trigger] binding.pinned_ppps@[i].addr)
                    && heap@[binding.pinned_ppps@[i].addr].pinned by {
                assert(pre_vm_heap@[binding.pinned_ppps@[i].addr].pinned);
            }
            assert forall|i: int, k: int|
                0 <= i < fac@.len() && 0 <= k < fac@[i].len()
                implies h0@.contains_key((#[trigger] fac@[i][k]).addr) by {
                if i >= pre_vm_fac.len() {
                    let news = fac@.skip(pre_vm_fac.len() as int);
                    crate::scanning::lemma_flat_elem(news, i - pre_vm_fac.len(), k);
                    let e = fac@[i][k];
                    assert(objs_of(vm_roots@).contains(e));
                    let j = choose|j: int| 0 <= j < objs_of(vm_roots@).len()
                        && objs_of(vm_roots@)[j] == e;
                    assert(vm_roots@[j].0 == e);
                } else {
                    assert(fac@.take(pre_vm_fac.len() as int) == pre_vm_fac);
                    assert(fac@[i] == pre_vm_fac[i]);
                }
            }
        }
        let ghost h_scan = *heap;
        proof {
            assert(h_scan.quiescent());
            assert(trace_effect(h_scan, *heap));
        }
        // The engine processes the created work packets: it traces every
        // batched root, marking it and relocating it if its space is
        // evacuated this cycle.
        let nb = fac.len();
        let mut b: usize = 0;
        while b < nb
            invariant
                nb == fac@.len(),
                b <= nb,
                gc_tls.object_closure is Unregistered,
                gc_tls.kind == old(gc_tls).kind,
                gc_tls.gc_context == old(gc_tls).gc_context,
                heap.wf(),
                h_scan.wf(),
                trace_effect(h_scan, *heap),
                forall|a: usize| #[trigger] h0@.contains_key(a) ==> h_scan@.contains_key(a),
                binding.moved_givtbl.wf(),
                forall|i: int| 0 <= i < binding.moved_givtbl@.len()
                    ==> heap@.contains_key(#[trigger] binding.moved_givtbl@[i].0.addr),
                forall|i: int, k: int|
                    0 <= i < fac@.len() && 0 <= k < fac@[i].len()
                        ==> h0@.contains_key((#[trigger] fac@[i][k]).addr),
                binding.ppp_registry@ == old(binding).ppp_registry@,
                binding.weak_proc@ == old(binding).weak_proc@,
                binding.root_set@ == recorded,
                pinned_registry_wf(binding.pinned_roots@, h_scan),
                pinned_registry_wf(binding.pinned_ppps@, h_scan),
            decreases nb - b,
        {
            let batch_len = fac.batch(b).len();
            let mut k: usize = 0;
            while k < batch_len
                invariant
                    nb == fac@.len(),
                    b < nb,
                    batch_len == fac@[b as int].len(),
                    k <= batch_len,
                    heap.wf(),
                    h_scan.wf(),
                    trace_effect(h_scan, *heap),
                    forall|a: usize| #[trigger] h0@.contains_key(a)
                        ==> h_scan@.contains_key(a),
                    binding.moved_givtbl.wf(),
                    forall|i: int| 0 <= i < binding.moved_givtbl@.len()
                        ==> heap@.contains_key(#[trigger] binding.moved_givtbl@[i].0.addr),
                    forall|i: int, k2: int|
                        0 <= i < fac@.len() && 0 <= k2 < fac@[i].len()
                            ==> h0@.contains_key((#[trigger] fac@[i][k2]).addr),
                    binding.ppp_registry@ == old(binding).ppp_registry@,
                    binding.weak_proc@ == old(binding).weak_proc@,
                    binding.root_set@ == recorded,
                    pinned_registry_wf(binding.pinned_roots@, h_scan),
                    pinned_registry_wf(binding.pinned_ppps@, h_scan),
                decreases batch_len - k,
            {
                let obj = fac.batch(b)[k];
                let ghost pre = *heap;
                let rr = heap.trace_object(&mut binding.moved_givtbl, obj);
                proof {
                    assert(trace_effect(pre, *heap));
                    crate::abi::lemma_trace_step(h_scan, pre, *heap, obj, rr);
                }
                k += 1;
            }
            b += 1;
        }
        let ghost h_trace = *heap;
        proof {
            assert(trace_visits_ok(h_trace, binding.moved_givtbl, weak_table_visits@)) by {
                assert forall|k: int| 0 <= k < weak_table_visits@.len()
                    implies h_trace@.contains_key(
                    (#[trigger] weak_table_visits@[k]).0.addr,
                ) by {
                    assert(h0@.contains_key(weak_table_visits@[k].0.addr));
                    assert(h_scan@.contains_key(weak_table_visits@[k].0.addr));
                }
            }
            assert forall|k: int| 0 <= k < binding.weak_proc@.len()
                implies h_trace@.contains_key((#[trigger] binding.weak_proc@[k]).addr) by {
                assert(h0@.contains_key(binding.weak_proc@[k].addr));
                assert(h_scan@.contains_key(binding.weak_proc@[k].addr));
            }
            assert forall|i: int| 0 <= i < binding.pinned_roots@.len()
                implies h_trace@.contains_key(#[trigger] binding.pinned_roots@[i].addr)
                    && h_trace@[binding.pinned_roots@[i].addr].pinned by {
                assert(h_scan@.contains_key(binding.pinned_roots@[i].addr));
            }
            assert forall|i: int| 0 <= i < binding.pinned_ppps@.len()
                implies h_trace@.contains_key(#[trigger] binding.pinned_ppps@[i].addr)
                    && h_trace@[binding.pinned_ppps@[i].addr].pinned by {
                assert(h_scan@.contains_key(binding.pinned_ppps@[i].addr));
            }
            // Liveness only grows up to the sweep: an object live at entry is
            // still live, so the sweep finalizes only objects dead at entry.
            assert forall|o: ObjectReference| h0.spec_is_live(o)
                implies #[trigger] h_trace.spec_is_live(o) by {
                assert(h_scan@.contains_key(o.addr));
                assert(h_scan@[o.addr].reached == h0@[o.addr].reached);
                assert(h_scan@[o.addr].fwd == h0@[o.addr].fwd);
            }
        }
        let outcome = binding.weak_proc.process_weak_stuff(
            gc_tls,
            heap,
            &mut binding.moved_givtbl,
            &mut binding.ppp_registry,
            &mut binding.pinned_roots,
            &mut binding.pinned_ppps,
            weak_table_visits,
        );
        let n_free = outcome.obj_free_calls.len();
        let ghost events_before_free = events@;
        let mut f: usize = 0;
        while f < n_free
            invariant
                n_free == outcome.obj_free_calls@.len(),
                f <= n_free,
                events@ == events_before_free + obj_free_events(
                    outcome.obj_free_calls@.take(f as int),
                ),
            decreases n_free - f,
        {
            events.push(GcEvent::CallObjFree { object: outcome.obj_free_calls[f] });
            proof {
                assert(outcome.obj_free_calls@.take(f + 1)
                    =~= outcome.obj_free_calls@.take(f as int).push(
                    outcome.obj_free_calls@[f as int],
                ));
                assert(events@ =~= events_before_free + obj_free_events(
                    outcome.obj_free_calls@.take(f + 1),
                ));
            }
            f += 1;
        }
        proof {
            assert(outcome.obj_free_calls@.take(n_free as int) =~= outcome.obj_free_calls@);
        }
        // Post-trace consistency verification: every recorded root must
        // resolve to a live managed object. Failures are reported to the
        // embedder as diagnostics; the cycle still completes and the world
        // still restarts.
        let mut all_roots: Vec<ObjectReference> = Vec::new();
        std::mem::swap(&mut all_roots, &mut binding.root_set);
        let mut dangling: Vec<ObjectReference> = Vec::new();
        let nr = all_roots.len();
        let mut q: usize = 0;
        while q < nr
            invariant
                nr == all_roots@.len(),
                q <= nr,
                all_roots@ == recorded,
                heap.wf(),
                dangling@ == dead_candidates(*heap, all_roots@.take(q as int)),
                forall|k: int| 0 <= k < dangling@.len()
                    ==> !heap.spec_is_live(#[trigger] dangling@[k]),
            decreases nr - q,
        {
            let o = all_roots[q];
            if !heap.is_mmtk_object(o.addr) {
                // The recorded root does not point to a managed object.
                dangling.push(o);
            } else if !heap.is_live(o) {
                // The recorded root is dead after tracing.
                dangling.push(o);
            }
            proof {
                lemma_dead_take(*heap, all_roots@, q as int);
            }
            q += 1;
        }
        proof {
            assert(all_roots@.take(nr as int) =~= all_roots@);
        }
        // The weak-table update ran inside the sweep, after the finalizer
        // upcalls; record it, then resume the mutators — unconditional, the
        // last step of every cycle.
        events.push(GcEvent::UpdateGlobalWeakTables);
        Self::resume_mutators(&mut events);
        proof {
            assert(events@ =~= cycle_events(
                thread_roots@.len() as int,
                outcome.obj_free_calls@,
            ));
        }
        (events, outcome, fac, dangling)
    }
}

} // verus!
