//! Tests of the weak sweep, the pinning-parent registry, and whole
//! stop-the-world cycles.

use mmtk_ruby::ObjectReference;
use mmtk_ruby::heap::Heap;
use mmtk_ruby::binding::{MovedGivTbl, RubyBinding};
use mmtk_ruby::abi::{GCThreadTLS, ObjectClosure};
use mmtk_ruby::ppp::PPPRegistry;
use mmtk_ruby::weak_proc::WeakProcessor;
use mmtk_ruby::scanning::RootsWorkFactory;
use mmtk_ruby::collection::{VMCollection, GcEvent, GCThreadContext};

#[test]
fn ppp_registry_register_and_foreach() {
    let mut reg = PPPRegistry::new();
    let a = ObjectReference::from_raw_address(8);
    let b = ObjectReference::from_raw_address(16);
    reg.register(a);
    reg.register(b);
    assert_eq!(reg.len(), 2);
    assert_eq!(reg.get(0), a);
    assert_eq!(reg.get(1), b);
    reg.foreach(|o: ObjectReference| {
        assert!(o.addr == 8 || o.addr == 16);
    });
}

#[test]
fn cleanup_ppps_keeps_live_entries_at_forwarded_addresses() {
    let mut heap = Heap::new();
    let mut moved = MovedGivTbl::new();
    let mut reg = PPPRegistry::new();
    let dead = heap.add_object(1, 0, 40, false, 0, false).unwrap();
    let live = heap.add_object(2, 0, 40, false, 0, false).unwrap();
    let mover = heap.add_object(3, 0, 40, false, 0, true).unwrap();
    reg.register(dead);
    reg.register(live);
    reg.register(mover);
    heap.mark_reached(live);
    let new_mover = heap.trace_object(&mut moved, mover);

    let removed = reg.cleanup_ppps(&heap);
    assert_eq!(removed, vec![dead]);
    assert_eq!(reg.len(), 2);
    assert_eq!(reg.get(0), live);
    assert_eq!(reg.get(1), new_mover);
}

#[test]
fn obj_free_candidates_are_taken_in_order() {
    let mut wp = WeakProcessor::new();
    let a = ObjectReference::from_raw_address(8);
    let b = ObjectReference::from_raw_address(16);
    wp.add_obj_free_candidate(a);
    wp.add_obj_free_candidate(b);
    assert_eq!(wp.len(), 2);
    assert_eq!(wp.get(0), a);
    let all = wp.get_all_obj_free_candidates();
    assert_eq!(all, vec![a, b]);
    assert_eq!(wp.len(), 0);
}

#[test]
fn weak_sweep_finalizes_the_dead_and_retains_the_live() {
    let mut heap = Heap::new();
    let mut binding = RubyBinding::new();
    let mut tls = GCThreadTLS::for_worker(3);
    let dead = heap.add_object(1, 0, 40, false, 0, false).unwrap();
    let live = heap.add_object(2, 0, 40, false, 0, false).unwrap();
    let mover = heap.add_object(3, 0, 40, false, 0, true).unwrap();
    heap.mark_reached(live);
    let new_mover = heap.trace_object(&mut binding.moved_givtbl, mover);
    binding.weak_proc.add_obj_free_candidate(dead);
    binding.weak_proc.add_obj_free_candidate(live);
    binding.weak_proc.add_obj_free_candidate(mover);

    let visits: Vec<(ObjectReference, bool)> = Vec::new();
    let outcome = binding.weak_proc.process_weak_stuff(
        &mut tls,
        &mut heap,
        &mut binding.moved_givtbl,
        &mut binding.ppp_registry,
        &mut binding.pinned_roots,
        &mut binding.pinned_ppps,
        &visits,
    );
    // The finalizer upcall runs exactly once, for the dead candidate.
    assert_eq!(outcome.obj_free_calls, vec![dead]);
    // Survivors are retained at their post-move addresses.
    assert_eq!(binding.weak_proc.len(), 2);
    assert_eq!(binding.weak_proc.get(0), live);
    assert_eq!(binding.weak_proc.get(1), new_mover);
}

#[test]
fn weak_sweep_is_idempotent_without_new_garbage() {
    let mut heap = Heap::new();
    let mut binding = RubyBinding::new();
    let mut tls = GCThreadTLS::for_worker(3);
    let dead = heap.add_object(1, 0, 40, false, 0, false).unwrap();
    let live = heap.add_object(2, 0, 40, false, 0, false).unwrap();
    let weak_ref = heap.add_object(4, 0, 40, false, 0, false).unwrap();
    heap.mark_reached(live);
    heap.mark_reached(weak_ref);
    binding.weak_proc.add_obj_free_candidate(dead);
    binding.weak_proc.add_obj_free_candidate(live);
    binding.ppp_registry.register(live);
    let visits = vec![(weak_ref, false)];

    let first = binding.weak_proc.process_weak_stuff(
        &mut tls,
        &mut heap,
        &mut binding.moved_givtbl,
        &mut binding.ppp_registry,
        &mut binding.pinned_roots,
        &mut binding.pinned_ppps,
        &visits,
    );
    assert_eq!(first.obj_free_calls, vec![dead]);
    let candidates_after_first: Vec<ObjectReference> =
        (0..binding.weak_proc.len()).map(|i| binding.weak_proc.get(i)).collect();
    let ppps_after_first: Vec<ObjectReference> =
        (0..binding.ppp_registry.len()).map(|i| binding.ppp_registry.get(i)).collect();

    // Second run: no new candidates, no new garbage. Everything is left
    // unchanged.
    let second_visits: Vec<(ObjectReference, bool)> =
        first.weak_table_results.iter().map(|o| (*o, false)).collect();
    let second = binding.weak_proc.process_weak_stuff(
        &mut tls,
        &mut heap,
        &mut binding.moved_givtbl,
        &mut binding.ppp_registry,
        &mut binding.pinned_roots,
        &mut binding.pinned_ppps,
        &second_visits,
    );
    assert!(second.obj_free_calls.is_empty());
    assert_eq!(second.weak_table_results, first.weak_table_results);
    let candidates_after_second: Vec<ObjectReference> =
        (0..binding.weak_proc.len()).map(|i| binding.weak_proc.get(i)).collect();
    let ppps_after_second: Vec<ObjectReference> =
        (0..binding.ppp_registry.len()).map(|i| binding.ppp_registry.get(i)).collect();
    assert_eq!(candidates_after_second, candidates_after_first);
    assert_eq!(ppps_after_second, ppps_after_first);
}

#[test]
fn weak_sweep_reports_pinning_weak_references() {
    let mut heap = Heap::new();
    let mut binding = RubyBinding::new();
    let mut tls = GCThreadTLS::for_worker(3);
    let a = heap.add_object(1, 0, 40, false, 0, false).unwrap();
    let b = heap.add_object(2, 0, 40, false, 0, false).unwrap();
    heap.mark_reached(a);
    heap.mark_reached(b);
    // The runtime wrongly presents one weak-table reference as pinning.
    let visits = vec![(a, false), (b, true)];

    let outcome = binding.weak_proc.process_weak_stuff(
        &mut tls,
        &mut heap,
        &mut binding.moved_givtbl,
        &mut binding.ppp_registry,
        &mut binding.pinned_roots,
        &mut binding.pinned_ppps,
        &visits,
    );
    assert_eq!(outcome.pin_violations, vec![b]);
}

#[test]
fn ppp_cycle_prunes_dead_and_forwards_live_entries() {
    // Three registered pinning parents; one dies, one stays, one moves.
    let mut heap = Heap::new();
    let mut binding = RubyBinding::new();
    let mut tls = GCThreadTLS::for_worker(7);
    let dead = heap.add_object(1, 11, 40, false, 0, false).unwrap();
    let stay = heap.add_object(2, 22, 40, false, 0, false).unwrap();
    let mover = heap.add_object(3, 33, 40, false, 0, true).unwrap();
    binding.ppp_registry.register(dead);
    binding.ppp_registry.register(stay);
    binding.ppp_registry.register(mover);
    binding.weak_proc.add_obj_free_candidate(dead);

    let ppp_children: Vec<(ObjectReference, bool)> = Vec::new();
    let thread_roots = vec![vec![(stay, false)]];
    let vm_roots: Vec<(ObjectReference, bool)> = Vec::new();
    let weak_visits = vec![(mover, false)];
    let (events, outcome, _fac, dangling) = VMCollection::do_stop_the_world_gc(
        &mut tls,
        &mut heap,
        &mut binding,
        RootsWorkFactory::new(),
        &ppp_children,
        &thread_roots,
        &vm_roots,
        &weak_visits,
    );
    // The finalizer upcall was invoked exactly once, for the dead object.
    assert_eq!(outcome.obj_free_calls, vec![dead]);
    let free_events: Vec<&GcEvent> = events
        .iter()
        .filter(|e| matches!(e, GcEvent::CallObjFree { .. }))
        .collect();
    assert_eq!(free_events.len(), 1);
    assert_eq!(*free_events[0], GcEvent::CallObjFree { object: dead });
    // The registry now holds only the two live entries, at their post-move
    // addresses.
    let new_mover = heap.get_forwarded_object(mover).unwrap();
    assert_ne!(new_mover, mover);
    assert_eq!(binding.ppp_registry.len(), 2);
    assert_eq!(binding.ppp_registry.get(0), stay);
    assert_eq!(binding.ppp_registry.get(1), new_mover);
    assert!(dangling.is_empty());
}

#[test]
fn stop_the_world_halts_before_scans_and_resumes_exactly_once() {
    // Four mutator threads.
    let mut heap = Heap::new();
    let mut binding = RubyBinding::new();
    let mut tls = GCThreadTLS::for_worker(1);
    let mut thread_roots: Vec<Vec<(ObjectReference, bool)>> = Vec::new();
    for t in 0..4 {
        let o = heap.add_object(t, 0, 40, false, 0, false).unwrap();
        thread_roots.push(vec![(o, false)]);
    }
    let g = heap.add_object(9, 0, 40, false, 0, false).unwrap();
    let vm_roots = vec![(g, false)];
    let none: Vec<(ObjectReference, bool)> = Vec::new();

    let (events, _outcome, _fac, dangling) = VMCollection::do_stop_the_world_gc(
        &mut tls,
        &mut heap,
        &mut binding,
        RootsWorkFactory::new(),
        &none,
        &thread_roots,
        &vm_roots,
        &none,
    );
    // Halt is the very first action, before any root scan.
    assert_eq!(events[0], GcEvent::StopTheWorld);
    // Resume happens exactly once, after every scan and the weak sweep.
    let resumes: Vec<usize> = events
        .iter()
        .enumerate()
        .filter(|(_, e)| matches!(e, GcEvent::ResumeMutators))
        .map(|(i, _)| i)
        .collect();
    assert_eq!(resumes, vec![events.len() - 1]);
    for (i, e) in events.iter().enumerate() {
        if matches!(e, GcEvent::ScanThreadRoot { .. } | GcEvent::ScanVmSpecificRoots) {
            assert!(0 < i && i < events.len() - 1);
        }
    }
    // The pinning-parent traversal precedes every root scan; then one scan
    // per mutator thread, the global scan, and the weak-table update just
    // before the resume.
    assert_eq!(events[1], GcEvent::ScanPinningParents);
    assert_eq!(events[2], GcEvent::ScanThreadRoot { index: 0 });
    assert_eq!(events[3], GcEvent::ScanThreadRoot { index: 1 });
    assert_eq!(events[4], GcEvent::ScanThreadRoot { index: 2 });
    assert_eq!(events[5], GcEvent::ScanThreadRoot { index: 3 });
    assert_eq!(events[6], GcEvent::ScanVmSpecificRoots);
    assert_eq!(events[events.len() - 2], GcEvent::UpdateGlobalWeakTables);
    // All recorded roots survived the cycle: the consistency check logged
    // nothing, and the world restarted regardless.
    assert!(dangling.is_empty());
}

#[test]
fn a_cycle_unpins_every_root_it_pinned() {
    let mut heap = Heap::new();
    let mut binding = RubyBinding::new();
    let mut tls = GCThreadTLS::for_worker(1);
    let root = heap.add_object(1, 0, 40, false, 0, true).unwrap();
    let child = heap.add_object(2, 0, 40, false, 0, true).unwrap();
    let thread_roots = vec![vec![(root, false)]];
    let ppp_children = vec![(child, false)];
    let none: Vec<(ObjectReference, bool)> = Vec::new();

    let (_events, _outcome, _fac, _dangling) = VMCollection::do_stop_the_world_gc(
        &mut tls,
        &mut heap,
        &mut binding,
        RootsWorkFactory::new(),
        &ppp_children,
        &thread_roots,
        &none,
        &none,
    );
    // Both were pinned during the cycle, never moved, and are unpinned
    // before the next cycle begins.
    assert!(!heap.get_object(root).pinned);
    assert!(!heap.get_object(child).pinned);
    assert!(heap.get_forwarded_object(root).is_none());
    assert!(heap.get_forwarded_object(child).is_none());
    assert!(binding.pinned_roots.is_empty());
    assert!(binding.pinned_ppps.is_empty());
    assert!(matches!(tls.object_closure, ObjectClosure::Unregistered));
}

#[test]
fn gc_thread_bookkeeping() {
    let mut binding = RubyBinding::new();
    let tls = VMCollection::setup_gc_thread_tls(
        GCThreadContext::Worker { gc_context: 12 },
        &mut binding,
        100,
    );
    assert_eq!(tls.worker(), 12);
    let _ = VMCollection::setup_gc_thread_tls(
        GCThreadContext::Controller { gc_context: 1 },
        &mut binding,
        200,
    );
    assert_eq!(binding.gc_threads, vec![100, 200]);
    binding.unregister_gc_thread(100);
    assert_eq!(binding.gc_threads, vec![200]);
    binding.unregister_gc_thread(999);
    assert_eq!(binding.gc_threads, vec![200]);
}

#[test]
fn block_for_gc_and_resume_are_recorded() {
    let mut events: Vec<GcEvent> = Vec::new();
    VMCollection::block_for_gc(&mut events);
    VMCollection::resume_mutators(&mut events);
    assert_eq!(events, vec![GcEvent::BlockForGC, GcEvent::ResumeMutators]);
}
