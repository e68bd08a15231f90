//! Tests of the closure bridge and the buffered root scanning.

use mmtk_ruby::ObjectReference;
use mmtk_ruby::heap::Heap;
use mmtk_ruby::binding::MovedGivTbl;
use mmtk_ruby::abi::{
    GCThreadTLS, ObjectClosure, Visitor, RawVecOfObjRef, RubyBindingOptions,
};
use mmtk_ruby::ppp::PinChildrenSession;
use mmtk_ruby::scanning::{VMScanning, RootsWorkFactory, RootCollector, OBJECT_BUFFER_SIZE};
use mmtk_ruby::cruby::{
    VALUE, my_special_const_p, rarray_embed_len, robject_embed_ary_addr, rarray_embed_ary_addr,
};

fn fresh_heap_with(n: usize, moves: bool) -> (Heap, Vec<ObjectReference>) {
    let mut heap = Heap::new();
    let mut objs = Vec::new();
    for i in 0..n {
        objs.push(heap.add_object(i, i * 10, 40, false, 0, moves).unwrap());
    }
    (heap, objs)
}

#[test]
fn closure_slot_is_restored_after_the_bridge_runs() {
    let (mut heap, objs) = fresh_heap_with(3, false);
    let mut moved = MovedGivTbl::new();
    let mut tls = GCThreadTLS::for_worker(11);
    let visits: Vec<(ObjectReference, bool)> = objs.iter().map(|o| (*o, false)).collect();

    assert!(matches!(tls.object_closure, ObjectClosure::Unregistered));
    let (visitor, results) = tls.object_closure.set_temporarily_and_run_code(
        Visitor::PinChildren(PinChildrenSession::new()),
        &mut heap,
        &mut moved,
        &visits,
    );
    // The slot is back to its default, unregistered state.
    assert!(matches!(tls.object_closure, ObjectClosure::Unregistered));
    assert_eq!(results, objs);
    match visitor {
        Visitor::PinChildren(s) => assert_eq!(s.pinned, objs),
        _ => panic!("the bridge returned a different visitor"),
    }
}

#[test]
fn invoking_the_trampoline_while_unregistered_reports_thread_and_object() {
    let (mut heap, objs) = fresh_heap_with(1, false);
    let mut moved = MovedGivTbl::new();
    let mut tls = GCThreadTLS::for_worker(42);

    let r = tls.invoke_object_closure(&mut heap, &mut moved, objs[0], false);
    let e = r.unwrap_err();
    assert_eq!(e.gc_context, 42);
    assert_eq!(e.object, objs[0]);
}

#[test]
fn the_trampoline_dispatches_to_an_installed_visitor() {
    let (mut heap, objs) = fresh_heap_with(1, false);
    let mut moved = MovedGivTbl::new();
    let mut tls = GCThreadTLS::for_worker(1);
    tls.object_closure = ObjectClosure::Registered(Visitor::TraceChildren);

    let r = tls.invoke_object_closure(&mut heap, &mut moved, objs[0], false);
    assert_eq!(r.unwrap(), objs[0]);
    assert!(heap.is_live(objs[0]));
}

#[test]
fn scanning_batches_roots_by_the_buffer_capacity() {
    // A root set of size 7 with capacity 3 produces ceil(7/3) = 3 batches.
    let (mut heap, objs) = fresh_heap_with(7, false);
    let mut moved = MovedGivTbl::new();
    let mut tls = GCThreadTLS::for_worker(1);
    let mut root_set = Vec::new();
    let mut pinned_roots = Vec::new();
    let visits: Vec<(ObjectReference, bool)> = objs.iter().map(|o| (*o, false)).collect();

    let fac = VMScanning::collect_object_roots_in(
        &mut tls,
        &mut heap,
        &mut moved,
        RootsWorkFactory::new(),
        &mut root_set,
        &mut pinned_roots,
        &visits,
        3,
    );
    assert_eq!(fac.len(), 3);
    assert_eq!(fac.batch(0).len(), 3);
    assert_eq!(fac.batch(1).len(), 3);
    assert_eq!(fac.batch(2).len(), 1);
    // The concatenation of the batches is exactly the root set.
    let mut all = Vec::new();
    for i in 0..fac.len() {
        all.extend_from_slice(fac.batch(i));
    }
    assert_eq!(all, objs);
    // Every root is recorded and, here, newly pinned.
    assert_eq!(root_set, objs);
    assert_eq!(pinned_roots, objs);
    for o in &objs {
        assert!(heap.get_object(*o).pinned);
    }
}

#[test]
fn scanning_an_exact_multiple_produces_only_full_batches() {
    let (mut heap, objs) = fresh_heap_with(6, false);
    let mut moved = MovedGivTbl::new();
    let mut tls = GCThreadTLS::for_worker(1);
    let mut root_set = Vec::new();
    let mut pinned_roots = Vec::new();
    let visits: Vec<(ObjectReference, bool)> = objs.iter().map(|o| (*o, false)).collect();

    let fac = VMScanning::collect_object_roots_in(
        &mut tls,
        &mut heap,
        &mut moved,
        RootsWorkFactory::new(),
        &mut root_set,
        &mut pinned_roots,
        &visits,
        3,
    );
    assert_eq!(fac.len(), 2);
    assert_eq!(fac.batch(0).len(), 3);
    assert_eq!(fac.batch(1).len(), 3);
}

#[test]
fn any_positive_buffer_capacity_is_correct() {
    // Capacity 1: one batch per root.
    let (mut heap, objs) = fresh_heap_with(4, false);
    let mut moved = MovedGivTbl::new();
    let mut tls = GCThreadTLS::for_worker(1);
    let mut root_set = Vec::new();
    let mut pinned_roots = Vec::new();
    let visits: Vec<(ObjectReference, bool)> = objs.iter().map(|o| (*o, false)).collect();

    let fac = VMScanning::collect_object_roots_in(
        &mut tls,
        &mut heap,
        &mut moved,
        RootsWorkFactory::new(),
        &mut root_set,
        &mut pinned_roots,
        &visits,
        1,
    );
    assert_eq!(fac.len(), 4);
    for i in 0..4 {
        assert_eq!(fac.batch(i).len(), 1);
        assert_eq!(fac.batch(i)[0], objs[i]);
    }
}

#[test]
fn scanning_an_empty_root_set_produces_no_batches() {
    let mut heap = Heap::new();
    let mut moved = MovedGivTbl::new();
    let mut tls = GCThreadTLS::for_worker(1);
    let mut root_set = Vec::new();
    let mut pinned_roots = Vec::new();
    let visits: Vec<(ObjectReference, bool)> = Vec::new();

    let fac = VMScanning::scan_thread_root(
        &mut tls,
        &mut heap,
        &mut moved,
        RootsWorkFactory::new(),
        &mut root_set,
        &mut pinned_roots,
        &visits,
    );
    assert_eq!(fac.len(), 0);
    assert!(root_set.is_empty());
    assert_eq!(OBJECT_BUFFER_SIZE, 4096);
}

#[test]
fn a_root_already_pinned_is_not_recorded_twice() {
    let (mut heap, objs) = fresh_heap_with(2, false);
    let mut moved = MovedGivTbl::new();
    let mut tls = GCThreadTLS::for_worker(1);
    let mut root_set = Vec::new();
    let mut pinned_roots = Vec::new();
    heap.pin_object(objs[0]);
    let visits = vec![(objs[0], false), (objs[1], false), (objs[1], false)];

    let _ = VMScanning::collect_object_roots_in(
        &mut tls,
        &mut heap,
        &mut moved,
        RootsWorkFactory::new(),
        &mut root_set,
        &mut pinned_roots,
        &visits,
        8,
    );
    // objs[0] was pinned before the scan, and objs[1] is visited twice but
    // newly pinned once.
    assert_eq!(pinned_roots, vec![objs[1]]);
    assert_eq!(root_set.len(), 3);
}

#[test]
fn scan_object_and_trace_edges_forwards_children() {
    let mut heap = Heap::new();
    let mut moved = MovedGivTbl::new();
    let mut tls = GCThreadTLS::for_worker(1);
    let parent = heap.add_object(1, 0, 40, false, 0, false).unwrap();
    let child_stays = heap.add_object(2, 5, 40, false, 0, false).unwrap();
    let child_moves = heap.add_object(3, 6, 40, false, 0, true).unwrap();
    let children = vec![(child_stays, false), (child_moves, false)];

    let rs = VMScanning::scan_object_and_trace_edges(
        &mut tls,
        &mut heap,
        &mut moved,
        parent,
        &children,
    );
    assert_eq!(rs.len(), 2);
    assert_eq!(rs[0], child_stays);
    assert_ne!(rs[1], child_moves);
    assert_eq!(heap.get_forwarded_object(child_moves), Some(rs[1]));
    assert!(matches!(tls.object_closure, ObjectClosure::Unregistered));
}

#[test]
fn a_pinned_referent_is_answered_with_itself() {
    // Even while other referents are being relocated, a referent pinned
    // before the scan keeps its address and is answered with itself.
    let mut heap = Heap::new();
    let mut moved = MovedGivTbl::new();
    let mut tls = GCThreadTLS::for_worker(1);
    let parent = heap.add_object(1, 0, 40, false, 0, false).unwrap();
    let moving = heap.add_object(2, 5, 40, false, 0, true).unwrap();
    let pinned = heap.add_object(3, 6, 40, false, 0, true).unwrap();
    heap.pin_object(pinned);
    let children = vec![(moving, false), (pinned, true)];

    let rs = VMScanning::scan_object_and_trace_edges(
        &mut tls,
        &mut heap,
        &mut moved,
        parent,
        &children,
    );
    assert_ne!(rs[0], moving);
    assert_eq!(rs[1], pinned);
}

#[test]
fn a_forwarded_referent_is_answered_with_its_target() {
    let mut heap = Heap::new();
    let mut moved = MovedGivTbl::new();
    let mut tls = GCThreadTLS::for_worker(1);
    let parent = heap.add_object(1, 0, 40, false, 0, false).unwrap();
    let moving = heap.add_object(2, 5, 40, false, 0, true).unwrap();
    let forwarded = heap.add_object(3, 6, 40, false, 0, true).unwrap();
    // The primary trace already moved this referent.
    let target = heap.trace_object(&mut moved, forwarded);
    let children = vec![(moving, false), (forwarded, false)];

    let rs = VMScanning::scan_object_and_trace_edges(
        &mut tls,
        &mut heap,
        &mut moved,
        parent,
        &children,
    );
    assert_eq!(rs[1], target);
    assert_ne!(rs[1], forwarded);
}

#[test]
fn thread_contexts_carry_their_role() {
    let c = GCThreadTLS::for_controller(5);
    let w = GCThreadTLS::for_worker(9);
    assert!(matches!(c.object_closure, ObjectClosure::Unregistered));
    assert!(matches!(w.object_closure, ObjectClosure::Unregistered));
    assert_eq!(w.worker(), 9);
    assert_eq!(c.gc_context, 5);
}

#[test]
fn raw_vec_round_trip() {
    let objs = vec![ObjectReference::from_raw_address(8), ObjectReference::from_raw_address(16)];
    let raw = RawVecOfObjRef::from_vec(objs.clone());
    assert_eq!(raw.len, 2);
    assert_eq!(raw.into_vec(), objs);
    let opts = RubyBindingOptions { ractor_check_mode: false, suffix_size: 0 };
    assert!(!opts.ractor_check_mode);
}

#[test]
fn ruby_value_helpers() {
    // The false value and immediates are special constants; heap addresses
    // are not.
    assert!(my_special_const_p(VALUE(0)));
    assert!(my_special_const_p(VALUE(1)));
    assert!(my_special_const_p(VALUE(42)));
    assert!(!my_special_const_p(VALUE(8)));
    assert!(!my_special_const_p(VALUE(0x10000)));
    // An embedded array's length sits in flag bits 15 and 16.
    assert_eq!(rarray_embed_len(0), 0);
    assert_eq!(rarray_embed_len(2 << 15), 2);
    assert_eq!(rarray_embed_len((3 << 15) | 0x7), 3);
    assert_eq!(robject_embed_ary_addr(VALUE(1000)), 1032);
    assert_eq!(rarray_embed_ary_addr(VALUE(1000)), 1016);
    assert_eq!(VALUE(0x4000).as_basic(), 0x4000);
}

#[test]
fn object_reference_round_trip() {
    let r = ObjectReference::from_raw_address(0x1000);
    assert_eq!(r.to_raw_address(), 0x1000);
}
