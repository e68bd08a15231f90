//! Tests of the object model: the three-state forwarding protocol, copying,
//! and the engine's tracer.

use mmtk_ruby::ObjectReference;
use mmtk_ruby::heap::{Heap, ForwardingState};
use mmtk_ruby::object_model::VMObjectModel;
use mmtk_ruby::binding::MovedGivTbl;

#[test]
fn attempt_to_forward_single_winner() {
    let mut heap = Heap::new();
    let mut moved = MovedGivTbl::new();
    let obj = heap.add_object(0x1234, 77, 40, false, 0, true).unwrap();

    // The first attempt wins and receives the flags word.
    let won = VMObjectModel::attempt_to_forward(&mut heap, obj);
    assert_eq!(won, Some(0x1234));
    // Every further attempt loses.
    assert_eq!(VMObjectModel::attempt_to_forward(&mut heap, obj), None);
    assert_eq!(VMObjectModel::attempt_to_forward(&mut heap, obj), None);

    // The winner copies and publishes.
    let to = VMObjectModel::copy(&mut heap, &mut moved, obj, 0x1234).unwrap();
    heap.mark_reached(to);
    VMObjectModel::write_forwarding_state_and_forwarding_pointer(&mut heap, obj, to);

    // Everyone now reads the same final address, repeatedly.
    assert!(VMObjectModel::is_forwarded(&heap, obj));
    let r1 = VMObjectModel::read_forwarding_pointer(&heap, obj);
    let r2 = VMObjectModel::spin_and_get_forwarded_object(&heap, obj);
    let r3 = VMObjectModel::read_forwarding_pointer(&heap, obj);
    assert_eq!(r1, to);
    assert_eq!(r2, to);
    assert_eq!(r3, to);
    // A late attempt still loses and changes nothing.
    assert_eq!(VMObjectModel::attempt_to_forward(&mut heap, obj), None);
    assert_eq!(VMObjectModel::read_forwarding_pointer(&heap, obj), to);
}

#[test]
fn copy_preserves_payload_and_reconstructs_flags() {
    let mut heap = Heap::new();
    let mut moved = MovedGivTbl::new();
    let obj = heap.add_object(0xAAAA, 424242, 64, false, 0, true).unwrap();

    let vm_data = VMObjectModel::attempt_to_forward(&mut heap, obj).unwrap();
    let to = VMObjectModel::copy(&mut heap, &mut moved, obj, vm_data).unwrap();

    let src = heap.get_object(obj);
    let dst = heap.get_object(to);
    // Exactly one copy of the payload bytes exists in the destination space,
    // with the flags word reconstructed.
    assert_ne!(to, obj);
    assert_eq!(dst.payload, src.payload);
    assert_eq!(dst.size, src.size);
    assert_eq!(dst.flags, 0xAAAA);
    assert!(matches!(dst.fwd, ForwardingState::NotForwarded));
    assert!(!dst.moves_when_traced);
}

#[test]
fn copy_records_moved_givtbl_entry() {
    let mut heap = Heap::new();
    let mut moved = MovedGivTbl::new();
    let obj = heap.add_object(5, 9, 40, true, 0xBEE, true).unwrap();

    let vm_data = VMObjectModel::attempt_to_forward(&mut heap, obj).unwrap();
    let to = VMObjectModel::copy(&mut heap, &mut moved, obj, vm_data).unwrap();

    // The moved table is keyed by the new reference and remembers the old
    // one and the runtime's table handle.
    assert_eq!(moved.len(), 1);
    let entry = moved.get(to).unwrap();
    assert_eq!(entry.old_objref, obj);
    assert_eq!(entry.gen_ivtbl, 0xBEE);
    assert!(heap.get_object(to).has_moved_givtbl);

    let all = moved.take_all();
    assert_eq!(all.len(), 1);
    assert_eq!(moved.len(), 0);
}

#[test]
fn revert_restores_the_flags_word() {
    let mut heap = Heap::new();
    let obj = heap.add_object(0x77, 1, 40, false, 0, true).unwrap();

    let vm_data = VMObjectModel::attempt_to_forward(&mut heap, obj).unwrap();
    // Destination allocation failed: roll back.
    VMObjectModel::revert_forwarding_state(&mut heap, obj, vm_data);

    let o = heap.get_object(obj);
    assert!(matches!(o.fwd, ForwardingState::NotForwarded));
    assert_eq!(o.flags, 0x77);
    // The protocol can be won again afterwards.
    assert_eq!(VMObjectModel::attempt_to_forward(&mut heap, obj), Some(0x77));
}

#[test]
fn trace_object_never_moves_a_pinned_object() {
    let mut heap = Heap::new();
    let mut moved = MovedGivTbl::new();
    let obj = heap.add_object(1, 2, 40, false, 0, true).unwrap();

    assert!(heap.pin_object(obj));
    // Pinning is idempotent: a repeated pin is safe and reports no new pin.
    assert!(!heap.pin_object(obj));

    let r = heap.trace_object(&mut moved, obj);
    // The pinned object keeps its address and is merely marked.
    assert_eq!(r, obj);
    assert!(heap.get_object(obj).reached);
    assert!(matches!(heap.get_object(obj).fwd, ForwardingState::NotForwarded));
    assert!(heap.is_live(obj));
}

#[test]
fn trace_object_moves_an_unpinned_object_once() {
    let mut heap = Heap::new();
    let mut moved = MovedGivTbl::new();
    let obj = heap.add_object(1, 99, 40, false, 0, true).unwrap();

    let first = heap.trace_object(&mut moved, obj);
    assert_ne!(first, obj);
    // A second trace returns the same copy: the published pointer is final.
    let second = heap.trace_object(&mut moved, obj);
    assert_eq!(second, first);
    assert_eq!(heap.get_forwarded_object(obj), Some(first));
    assert_eq!(heap.get_object(first).payload, 99);
    // The copy lives in the destination space and is not moved again.
    let third = heap.trace_object(&mut moved, first);
    assert_eq!(third, first);
}

#[test]
fn trace_object_keeps_a_non_moving_object() {
    let mut heap = Heap::new();
    let mut moved = MovedGivTbl::new();
    let obj = heap.add_object(1, 3, 40, false, 0, false).unwrap();

    let r = heap.trace_object(&mut moved, obj);
    assert_eq!(r, obj);
    assert!(heap.is_reachable(obj));
}

#[test]
fn trace_keeps_an_object_in_place_when_copying_space_is_exhausted() {
    let mut heap = Heap::new();
    let mut moved = MovedGivTbl::new();
    // Large enough to be placed once, but too large to copy afterwards.
    let big = heap.add_object(0x5150, 7, usize::MAX / 2, false, 0, true).unwrap();

    let r = heap.trace_object(&mut moved, big);
    // The forwarding attempt was rolled back: the object stays in place,
    // marked, with its flags word restored.
    assert_eq!(r, big);
    let o = heap.get_object(big);
    assert!(o.reached);
    assert_eq!(o.flags, 0x5150);
    assert!(matches!(o.fwd, ForwardingState::NotForwarded));
    assert_eq!(moved.len(), 0);
}

#[test]
fn add_object_reports_address_exhaustion() {
    let mut heap = Heap::new();
    // A size this large cannot be placed below the address-space limit.
    assert!(heap.add_object(0, 0, usize::MAX - 4, false, 0, false).is_none());
    // The heap is still usable.
    assert!(heap.add_object(0, 0, 40, false, 0, false).is_some());
}

#[test]
fn object_model_address_arithmetic() {
    let mut heap = Heap::new();
    let obj = heap.add_object(0, 0, 48, false, 0, false).unwrap();
    assert_eq!(VMObjectModel::ref_to_address(obj), obj.addr);
    assert_eq!(VMObjectModel::ref_to_header(obj), obj.addr);
    assert_eq!(VMObjectModel::ref_to_object_start(obj), obj.addr - 8);
    assert_eq!(VMObjectModel::address_to_ref(obj.addr), obj);
    assert_eq!(VMObjectModel::get_current_size(&heap, obj), 48);
    assert_eq!(VMObjectModel::get_size_when_copied(&heap, obj), 48);
}

#[test]
fn prepare_new_cycle_resets_marks_and_releases_evacuated_originals() {
    let mut heap = Heap::new();
    let mut moved = MovedGivTbl::new();
    let stay = heap.add_object(1, 5, 40, false, 0, false).unwrap();
    let mover = heap.add_object(2, 6, 40, false, 0, true).unwrap();
    heap.mark_reached(stay);
    let target = heap.trace_object(&mut moved, mover);

    heap.prepare_new_cycle();
    // Marks are cleared, the surviving objects stay, and the evacuated
    // from-space original is released.
    assert!(!heap.get_object(stay).reached);
    assert!(!heap.get_object(target).reached);
    assert!(!heap.is_mmtk_object(mover.addr));
    assert!(heap.is_mmtk_object(stay.addr));
    // A new cycle can trace again from scratch.
    assert!(!heap.is_live(stay));
    let r = heap.trace_object(&mut moved, stay);
    assert_eq!(r, stay);
    assert!(heap.is_live(stay));
}

#[test]
fn allocation_hands_out_aligned_addresses() {
    let mut heap = Heap::new();
    // An odd size still lands every object on the minimum alignment.
    let a = heap.add_object(0, 0, 41, false, 0, false).unwrap();
    let b = heap.add_object(0, 0, 7, false, 0, false).unwrap();
    assert_eq!(a.addr % 8, 0);
    assert_eq!(b.addr % 8, 0);
    assert!(b.addr >= a.addr + 41 + 8);
}

#[test]
fn will_never_move_tracks_pins_and_policy() {
    let mut heap = Heap::new();
    let fixed = heap.add_object(1, 0, 40, false, 0, false).unwrap();
    let movable = heap.add_object(2, 0, 40, false, 0, true).unwrap();
    assert!(heap.will_never_move(fixed));
    assert!(!heap.will_never_move(movable));
    heap.pin_object(movable);
    assert!(heap.will_never_move(movable));
    assert!(heap.will_never_move(ObjectReference::from_raw_address(4)));
    assert!(heap.check_quiescent());
}

#[test]
fn unpin_is_idempotent_and_reports_first_release() {
    let mut heap = Heap::new();
    let obj = heap.add_object(0, 0, 40, false, 0, false).unwrap();
    assert!(heap.pin_object(obj));
    assert!(heap.unpin_object(obj));
    assert!(!heap.unpin_object(obj));
    assert!(!heap.get_object(obj).pinned);
}
