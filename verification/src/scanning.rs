//! Root scanning: enumerated roots are buffered, flushed to the collector's
//! work-creation entry point in batches once the buffer reaches its
//! capacity, pinned so conservative holders survive relocation, and
//! recorded in a process-wide snapshot for post-trace consistency checking.
//! Buffering exists for work-scheduling granularity: any positive buffer
//! capacity is correct.

use vstd::prelude::*;
use vstd::arithmetic::div_mod::lemma_fundamental_div_mod_converse_div;
use crate::ObjectReference;
use crate::heap::{Heap, HeapObject};
use crate::binding::MovedGivTbl;
use crate::abi::{
    GCThreadTLS, Visitor, pin_effect, records_newly_pinned, trace_effect, trace_visits_ok,
    all_settled, visit_answer_fixed, trace_growth_bounded,
};

verus! {

/// Buffer capacity used for root scans: a throughput/latency tradeoff, not
/// a correctness requirement.
pub const OBJECT_BUFFER_SIZE: usize = 4096;

/// The objects of a visit sequence, in order.
pub open spec fn objs_of(visits: Seq<(ObjectReference, bool)>) -> Seq<ObjectReference> {
    visits.map_values(|p: (ObjectReference, bool)| p.0)
}

/// The objects of a visit sequence that were presented with the pinning
/// flag set, in order.
pub open spec fn pinned_objs_of(visits: Seq<(ObjectReference, bool)>) -> Seq<ObjectReference> {
    objs_of(visits.filter(|p: (ObjectReference, bool)| p.1))
}

/// Whether some visit in the sequence presents the object at address `a`.
pub open spec fn visits_addr(visits: Seq<(ObjectReference, bool)>, a: usize) -> bool {
    exists|k: int| 0 <= k < visits.len() && visits[k].0.addr == a
}

/// The concatenation of a sequence of batches.
pub open spec fn flat_batches(bs: Seq<Seq<ObjectReference>>) -> Seq<ObjectReference>
    decreases bs.len(),
{
    if bs.len() == 0 {
        Seq::empty()
    } else {
        flat_batches(bs.drop_last()) + bs.last()
    }
}

pub proof fn lemma_flat_batches_push(bs: Seq<Seq<ObjectReference>>, b: Seq<ObjectReference>)
    ensures
        flat_batches(bs.push(b)) == flat_batches(bs) + b,
{
    assert(bs.push(b).drop_last() =~= bs);
    assert(bs.push(b).last() == b);
}

/// A registry of pinned objects is consistent with the heap: entries are
/// pairwise distinct managed objects whose pin bit is set.
pub open spec fn pinned_registry_wf(s: Seq<ObjectReference>, heap: Heap) -> bool {
    &&& (forall|i: int| 0 <= i < s.len()
            ==> heap@.contains_key(#[trigger] s[i].addr) && heap@[s[i].addr].pinned)
    &&& (forall|i: int, j: int| 0 <= i < s.len() && 0 <= j < s.len() && i != j ==> s[i] != s[j])
}

/// Everything one root visit guarantees, over the session and heap states
/// around it: the root is recorded and returned unchanged, its pin bit is
/// set, it is recorded as newly pinned exactly when that bit was clear, and
/// it is buffered, with a full buffer flushed as one exactly-full batch.
pub open spec fn visit_root_post(
    pre_c: RootCollector,
    post_c: RootCollector,
    pre_h: Map<usize, HeapObject>,
    post_h: Map<usize, HeapObject>,
    object: ObjectReference,
    r: ObjectReference,
) -> bool {
    &&& r == object
    &&& post_c.capacity == pre_c.capacity
    &&& post_c.base_len == pre_c.base_len
    &&& post_c.my_roots@ == pre_c.my_roots@.push(object)
    &&& post_h == if pre_h.contains_key(object.addr) {
        pre_h.insert(object.addr, HeapObject { pinned: true, ..pre_h[object.addr] })
    } else {
        pre_h
    }
    &&& post_c.my_pinned_roots@ == if pre_h.contains_key(object.addr)
        && !pre_h[object.addr].pinned {
        pre_c.my_pinned_roots@.push(object)
    } else {
        pre_c.my_pinned_roots@
    }
    &&& post_c.factory@ == if pre_c.buffer@.len() + 1 == pre_c.capacity {
        pre_c.factory@.push(pre_c.buffer@.push(object))
    } else {
        pre_c.factory@
    }
    &&& post_c.buffer@ == if pre_c.buffer@.len() + 1 == pre_c.capacity {
        Seq::<ObjectReference>::empty()
    } else {
        pre_c.buffer@.push(object)
    }
}

/// The collector's work-creation entry point: each call hands it one batch
/// of roots to turn into a work packet.
pub struct RootsWorkFactory {
    batches: Vec<Vec<ObjectReference>>,
}

impl View for RootsWorkFactory {
    type V = Seq<Seq<ObjectReference>>;

    closed spec fn view(&self) -> Seq<Seq<ObjectReference>> {
        self.batches@.map_values(|v: Vec<ObjectReference>| v@)
    }
}

impl RootsWorkFactory {
    pub fn new() -> (r: RootsWorkFactory)
        ensures
            r@ == Seq::<Seq<ObjectReference>>::empty(),
    {
        let r = RootsWorkFactory { batches: Vec::new() };
        proof {
            assert(r@ =~= Seq::<Seq<ObjectReference>>::empty());
        }
        r
    }

    pub fn len(&self) -> (r: usize)
        ensures
            r == self@.len(),
    {
        self.batches.len()
    }

    /// Read back one batch; lets the engine (or a test) consume the work.
    pub fn batch(&self, i: usize) -> (r: &Vec<ObjectReference>)
        requires
            i < self@.len(),
        ensures
            r@ == self@[i as int],
    {
        &self.batches[i]
    }

    /// Hand one batch of roots to the collector to become a work packet.
    pub fn create_process_node_roots_work(&mut self, buffer: Vec<ObjectReference>)
        ensures
            final(self)@ == old(self)@.push(buffer@),
    {
        self.batches.push(buffer);
        proof {
            assert(self@ =~= old(self)@.push(buffer@));
        }
    }
}

/// One root scan in progress: the visitor installed in the thread-local
/// closure slot while the runtime enumerates a root set.
pub struct RootCollector {
    /// Work batches are handed here once the buffer fills.
    pub factory: RootsWorkFactory,
    /// Number of batches the factory held when this scan began.
    pub base_len: usize,
    /// Roots buffered since the last flush.
    pub buffer: Vec<ObjectReference>,
    /// Every root visited by this scan, in order.
    pub my_roots: Vec<ObjectReference>,
    /// The roots this scan newly pinned.
    pub my_pinned_roots: Vec<ObjectReference>,
    /// Flush threshold; any positive value is correct.
    pub capacity: usize,
}

impl RootCollector {
    /// Scan-session invariant: batches created by this scan are exactly
    /// full, and together with the buffer they hold precisely the visited
    /// roots; the newly pinned roots are distinct and pinned in the heap.
    pub open spec fn inv(self, heap: Heap) -> bool {
        &&& self.capacity > 0
        &&& self.buffer@.len() < self.capacity
        &&& self.base_len <= self.factory@.len()
        &&& (forall|i: int| self.base_len <= i < self.factory@.len()
                ==> #[trigger] self.factory@[i].len() == self.capacity)
        &&& flat_batches(self.factory@.skip(self.base_len as int)) + self.buffer@
            == self.my_roots@
        &&& pinned_registry_wf(self.my_pinned_roots@, heap)
    }

    pub fn new(factory: RootsWorkFactory, capacity: usize) -> (r: RootCollector)
        requires
            capacity > 0,
        ensures
            r.factory@ == factory@,
            r.base_len == factory@.len(),
            r.buffer@ == Seq::<ObjectReference>::empty(),
            r.my_roots@ == Seq::<ObjectReference>::empty(),
            r.my_pinned_roots@ == Seq::<ObjectReference>::empty(),
            r.capacity == capacity,
            forall|heap: Heap| #[trigger] r.inv(heap),
    {
        let base_len = factory.len();
        let r = RootCollector {
            factory,
            base_len,
            buffer: Vec::new(),
            my_roots: Vec::new(),
            my_pinned_roots: Vec::new(),
            capacity,
        };
        proof {
            assert forall|heap: Heap| #[trigger] r.inv(heap) by {
                assert(r.factory@.skip(r.base_len as int) =~= Seq::<Seq<ObjectReference>>::empty());
                assert(flat_batches(r.factory@.skip(r.base_len as int)) + r.buffer@
                    =~= r.my_roots@);
            }
        }
        r
    }

    /// Visit one enumerated root: record it, attempt to pin it, buffer it,
    /// and flush a full buffer to the work factory. Returns the root
    /// unchanged — roots are pinned, never relocated, during the scan.
    pub fn visit_root(&mut self, heap: &mut Heap, object: ObjectReference, pin: bool) -> (r:
        ObjectReference)
        requires
            old(self).inv(*old(heap)),
            old(heap).wf(),
        ensures
            final(self).inv(*final(heap)),
            final(heap).wf(),
            final(heap).spec_copy_log() == old(heap).spec_copy_log(),
            final(heap).spec_next_alloc() == old(heap).spec_next_alloc(),
            visit_root_post(*old(self), *final(self), old(heap)@, final(heap)@, object, r),
    {
        let _ = pin;
        self.my_roots.push(object);
        if heap.pin_object(object) {
            proof {
                assert forall|i: int| 0 <= i < self.my_pinned_roots@.len()
                    implies self.my_pinned_roots@[i] != object by {
                    assert(old(heap)@[self.my_pinned_roots@[i].addr].pinned);
                }
            }
            self.my_pinned_roots.push(object);
        }
        self.buffer.push(object);
        if self.buffer.len() >= self.capacity {
            let mut b: Vec<ObjectReference> = Vec::new();
            std::mem::swap(&mut self.buffer, &mut b);
            proof {
                lemma_flat_batches_push(
                    self.factory@.skip(self.base_len as int),
                    b@,
                );
            }
            self.factory.create_process_node_roots_work(b);
            proof {
                assert(self.factory@.skip(self.base_len as int)
                    =~= old(self).factory@.skip(self.base_len as int).push(b@));
            }
        }
        proof {
            assert(flat_batches(self.factory@.skip(self.base_len as int)) + self.buffer@
                =~= self.my_roots@);
        }
        object
    }

    /// End of the enumeration: flush a non-empty remainder as the final,
    /// possibly partial, batch.
    pub fn flush(&mut self)
        ensures
            final(self).capacity == old(self).capacity,
            final(self).base_len == old(self).base_len,
            final(self).my_roots@ == old(self).my_roots@,
            final(self).my_pinned_roots@ == old(self).my_pinned_roots@,
            final(self).buffer@ == Seq::<ObjectReference>::empty(),
            final(self).factory@ == if old(self).buffer@.len() > 0 {
                old(self).factory@.push(old(self).buffer@)
            } else {
                old(self).factory@
            },
    {
        if self.buffer.len() > 0 {
            let mut b: Vec<ObjectReference> = Vec::new();
            std::mem::swap(&mut self.buffer, &mut b);
            self.factory.create_process_node_roots_work(b);
        }
    }
}

/// A sequence of batches that are all exactly `cap` long concatenates to
/// `count * cap` elements.
pub proof fn lemma_flat_full_len(bs: Seq<Seq<ObjectReference>>, cap: int)
    requires
        forall|i: int| 0 <= i < bs.len() ==> #[trigger] bs[i].len() == cap,
    ensures
        flat_batches(bs).len() == bs.len() * cap,
    decreases bs.len(),
{
    if bs.len() == 0 {
    } else {
        lemma_flat_full_len(bs.drop_last(), cap);
        assert((bs.len() - 1) * cap + cap == bs.len() * cap) by (nonlinear_arith);
    }
}

/// Concatenation splits at any point.
pub proof fn lemma_flat_split(bs: Seq<Seq<ObjectReference>>, m: int)
    requires
        0 <= m <= bs.len(),
    ensures
        flat_batches(bs) == flat_batches(bs.take(m)) + flat_batches(bs.skip(m)),
    decreases bs.len(),
{
    if m == bs.len() {
        assert(bs.take(m) =~= bs);
        assert(bs.skip(m) =~= Seq::<Seq<ObjectReference>>::empty());
        assert(flat_batches(bs.take(m)) + flat_batches(bs.skip(m)) =~= flat_batches(bs));
    } else {
        let dl = bs.drop_last();
        lemma_flat_split(dl, m);
        assert(bs.take(m) =~= dl.take(m));
        assert(bs.skip(m) =~= dl.skip(m).push(bs.last()));
        lemma_flat_batches_push(dl.skip(m), bs.last());
        assert((flat_batches(dl.take(m)) + flat_batches(dl.skip(m))) + bs.last()
            =~= flat_batches(dl.take(m)) + (flat_batches(dl.skip(m)) + bs.last()));
    }
}

/// Every element of every batch occurs in the concatenation.
pub proof fn lemma_flat_elem(bs: Seq<Seq<ObjectReference>>, i: int, k: int)
    requires
        0 <= i < bs.len(),
        0 <= k < bs[i].len(),
    ensures
        flat_batches(bs).contains(bs[i][k]),
    decreases bs.len(),
{
    if i == bs.len() - 1 {
        assert(flat_batches(bs)[flat_batches(bs.drop_last()).len() + k] == bs[i][k]);
    } else {
        lemma_flat_elem(bs.drop_last(), i, k);
        let e = bs[i][k];
        let j = choose|j: int| 0 <= j < flat_batches(bs.drop_last()).len()
            && flat_batches(bs.drop_last())[j] == e;
        assert(flat_batches(bs)[j] == e);
    }
}

/// Membership in a concatenation.
pub proof fn lemma_concat_contains(
    a: Seq<ObjectReference>,
    b: Seq<ObjectReference>,
    o: ObjectReference,
)
    ensures
        (a + b).contains(o) <==> (a.contains(o) || b.contains(o)),
{
    if (a + b).contains(o) {
        let k = choose|k: int| 0 <= k < (a + b).len() && (a + b)[k] == o;
        if k < a.len() {
            assert(a[k] == o);
        } else {
            assert(b[k - a.len()] == o);
        }
    }
    if a.contains(o) {
        let k = choose|k: int| 0 <= k < a.len() && a[k] == o;
        assert((a + b)[k] == o);
    }
    if b.contains(o) {
        let k = choose|k: int| 0 <= k < b.len() && b[k] == o;
        assert((a + b)[k + a.len()] == o);
    }
}

/// Appending the objects a pinning pass newly pinned to an existing pinned
/// registry keeps the registry consistent and characterizes the result.
pub proof fn lemma_pinned_union(
    old_list: Seq<ObjectReference>,
    session_list: Seq<ObjectReference>,
    orig_heap: Heap,
    final_heap: Heap,
    visits: Seq<(ObjectReference, bool)>,
)
    requires
        pinned_registry_wf(old_list, orig_heap),
        records_newly_pinned(Seq::<ObjectReference>::empty(), session_list, orig_heap, visits),
        pinned_registry_wf(session_list, final_heap),
        pin_effect(orig_heap@, final_heap@, visits),
    ensures
        pinned_registry_wf(old_list + session_list, final_heap),
        records_newly_pinned(old_list, old_list + session_list, orig_heap, visits),
{
    let combined = old_list + session_list;
    // Old entries remain pinned managed objects: a pinning pass only sets
    // pin bits.
    assert forall|i: int| 0 <= i < combined.len() implies final_heap@.contains_key(
        #[trigger] combined[i].addr,
    ) && final_heap@[combined[i].addr].pinned by {
        if i < old_list.len() {
            assert(combined[i] == old_list[i]);
            assert(orig_heap@.contains_key(old_list[i].addr));
        } else {
            assert(combined[i] == session_list[i - old_list.len()]);
        }
    }
    // Distinctness: session entries were unpinned originally, old entries
    // pinned, so the two parts cannot overlap.
    assert forall|i: int, j: int|
        0 <= i < combined.len() && 0 <= j < combined.len() && i != j
        implies combined[i] != combined[j] by {
        if i < old_list.len() && j >= old_list.len() {
            let o = combined[j];
            assert(session_list.contains(o)) by {
                assert(session_list[j - old_list.len()] == o);
            }
            assert(!orig_heap@[o.addr].pinned);
            assert(orig_heap@[combined[i].addr].pinned);
        } else if j < old_list.len() && i >= old_list.len() {
            let o = combined[i];
            assert(session_list.contains(o)) by {
                assert(session_list[i - old_list.len()] == o);
            }
            assert(!orig_heap@[o.addr].pinned);
            assert(orig_heap@[combined[j].addr].pinned);
        }
    }
    assert(old_list.is_prefix_of(combined)) by {
        assert(combined.take(old_list.len() as int) =~= old_list);
    }
    assert forall|o: ObjectReference| #[trigger] combined.contains(o) <==> (old_list.contains(o)
        || (objs_of(visits).contains(o) && orig_heap@.contains_key(o.addr)
            && !orig_heap@[o.addr].pinned)) by {
        lemma_concat_contains(old_list, session_list, o);
        assert(!Seq::<ObjectReference>::empty().contains(o));
    }
}

/// What every root scan guarantees: the closure slot is restored, the heap
/// is unchanged except that every visited root is pinned, the work handed to
/// the collector is exactly the visited roots in full batches (the last one
/// possibly partial, so a root set of size M with capacity C yields
/// ceil(M/C) batches), the snapshot records every root, and the pinned-roots
/// registry gains exactly the roots this scan newly pinned.
pub open spec fn root_scan_post(
    old_tls: GCThreadTLS,
    tls: GCThreadTLS,
    old_heap: Heap,
    heap: Heap,
    old_factory: Seq<Seq<ObjectReference>>,
    factory: Seq<Seq<ObjectReference>>,
    old_root_set: Seq<ObjectReference>,
    root_set: Seq<ObjectReference>,
    old_pinned: Seq<ObjectReference>,
    pinned: Seq<ObjectReference>,
    visits: Seq<(ObjectReference, bool)>,
    capacity: int,
) -> bool {
    &&& tls.object_closure is Unregistered
    &&& tls.kind == old_tls.kind
    &&& tls.gc_context == old_tls.gc_context
    &&& heap.wf()
    &&& pin_effect(old_heap@, heap@, visits)
    &&& heap.spec_copy_log() == old_heap.spec_copy_log()
    &&& heap.spec_next_alloc() == old_heap.spec_next_alloc()
    &&& factory.len() >= old_factory.len()
    &&& factory.take(old_factory.len() as int) == old_factory
    &&& flat_batches(factory.skip(old_factory.len() as int)) == objs_of(visits)
    &&& (forall|i: int| old_factory.len() <= i < factory.len()
            ==> 0 < #[trigger] factory[i].len() <= capacity)
    &&& factory.len() - old_factory.len() == (visits.len() + capacity - 1) / capacity
    &&& root_set == old_root_set + objs_of(visits)
    &&& pinned_registry_wf(pinned, heap)
    &&& records_newly_pinned(old_pinned, pinned, old_heap, visits)
}

pub struct VMScanning {}

impl VMScanning {
    /// One root scan: install a root-collecting visitor, let the runtime
    /// enumerate the given roots through the closure bridge, flush the final
    /// batch, and record the visited and newly pinned roots in the
    /// process-wide snapshot and pinned-roots registry.
    pub fn collect_object_roots_in(
        gc_tls: &mut GCThreadTLS,
        heap: &mut Heap,
        moved_givtbl: &mut MovedGivTbl,
        factory: RootsWorkFactory,
        root_set: &mut Vec<ObjectReference>,
        pinned_roots: &mut Vec<ObjectReference>,
        visits: &Vec<(ObjectReference, bool)>,
        capacity: usize,
    ) -> (r: RootsWorkFactory)
        requires
            old(gc_tls).object_closure is Unregistered,
            old(heap).wf(),
            capacity > 0,
            pinned_registry_wf(old(pinned_roots)@, *old(heap)),
        ensures
            root_scan_post(
                *old(gc_tls),
                *final(gc_tls),
                *old(heap),
                *final(heap),
                factory@,
                r@,
                old(root_set)@,
                final(root_set)@,
                old(pinned_roots)@,
                final(pinned_roots)@,
                visits@,
                capacity as int,
            ),
            final(moved_givtbl)@ == old(moved_givtbl)@,
    {
        let ghost old_factory = factory@;
        let collector = RootCollector::new(factory, capacity);
        let (v, _results) = gc_tls.object_closure.set_temporarily_and_run_code(
            Visitor::CollectRoots(collector),
            heap,
            moved_givtbl,
            visits,
        );
        match v {
            Visitor::CollectRoots(mut c) => {
                let ghost pre_flush = c;
                c.flush();
                proof {
                    let base = old_factory.len() as int;
                    let new_full = pre_flush.factory@.skip(base);
                    let m = visits@.len() as int;
                    let cap = capacity as int;
                    let nf = new_full.len() as int;
                    let b = pre_flush.buffer@.len() as int;
                    // Every batch this scan made is full, and together with
                    // the buffer they hold exactly the visited roots.
                    assert(pre_flush.my_roots@ =~= objs_of(visits@));
                    lemma_flat_full_len(new_full, cap);
                    assert(m == nf * cap + b);
                    if b > 0 {
                        lemma_flat_batches_push(new_full, pre_flush.buffer@);
                        assert(c.factory@.skip(base) =~= new_full.push(pre_flush.buffer@));
                        assert(m + cap - 1 == (nf + 1) * cap + (b - 1)) by (nonlinear_arith)
                            requires
                                m == nf * cap + b,
                        ;
                        lemma_fundamental_div_mod_converse_div(m + cap - 1, cap, nf + 1, b - 1);
                    } else {
                        assert(c.factory@.skip(base) =~= new_full);
                        assert(flat_batches(c.factory@.skip(base)) + pre_flush.buffer@
                            =~= flat_batches(c.factory@.skip(base)));
                        lemma_fundamental_div_mod_converse_div(m + cap - 1, cap, nf, cap - 1);
                    }
                    assert(c.factory@.take(base) =~= old_factory);
                    lemma_pinned_union(
                        old(pinned_roots)@,
                        c.my_pinned_roots@,
                        *old(heap),
                        *heap,
                        visits@,
                    );
                }
                root_set.append(&mut c.my_roots);
                proof {
                    assert(root_set@ =~= old(root_set)@ + objs_of(visits@));
                }
                pinned_roots.append(&mut c.my_pinned_roots);
                c.factory
            },
            _ => {
                proof {
                    assert(false);
                }
                RootsWorkFactory::new()
            },
        }
    }

    /// Scan one mutator thread's roots, as the engine requests once per
    /// mutator during stop-the-world. The runtime's enumeration of that
    /// thread's stacks and local roots arrives as `visits`.
    pub fn scan_thread_root(
        gc_tls: &mut GCThreadTLS,
        heap: &mut Heap,
        moved_givtbl: &mut MovedGivTbl,
        factory: RootsWorkFactory,
        root_set: &mut Vec<ObjectReference>,
        pinned_roots: &mut Vec<ObjectReference>,
        visits: &Vec<(ObjectReference, bool)>,
    ) -> (r: RootsWorkFactory)
        requires
            old(gc_tls).object_closure is Unregistered,
            old(heap).wf(),
            pinned_registry_wf(old(pinned_roots)@, *old(heap)),
        ensures
            root_scan_post(
                *old(gc_tls),
                *final(gc_tls),
                *old(heap),
                *final(heap),
                factory@,
                r@,
                old(root_set)@,
                final(root_set)@,
                old(pinned_roots)@,
                final(pinned_roots)@,
                visits@,
                OBJECT_BUFFER_SIZE as int,
            ),
            final(moved_givtbl)@ == old(moved_givtbl)@,
    {
        Self::collect_object_roots_in(
            gc_tls,
            heap,
            moved_givtbl,
            factory,
            root_set,
            pinned_roots,
            visits,
            OBJECT_BUFFER_SIZE,
        )
    }

    /// Scan the global, VM-specific roots, as the engine requests once per
    /// cycle after the per-thread scans.
    pub fn scan_vm_specific_roots(
        gc_tls: &mut GCThreadTLS,
        heap: &mut Heap,
        moved_givtbl: &mut MovedGivTbl,
        factory: RootsWorkFactory,
        root_set: &mut Vec<ObjectReference>,
        pinned_roots: &mut Vec<ObjectReference>,
        visits: &Vec<(ObjectReference, bool)>,
    ) -> (r: RootsWorkFactory)
        requires
            old(gc_tls).object_closure is Unregistered,
            old(heap).wf(),
            pinned_registry_wf(old(pinned_roots)@, *old(heap)),
        ensures
            root_scan_post(
                *old(gc_tls),
                *final(gc_tls),
                *old(heap),
                *final(heap),
                factory@,
                r@,
                old(root_set)@,
                final(root_set)@,
                old(pinned_roots)@,
                final(pinned_roots)@,
                visits@,
                OBJECT_BUFFER_SIZE as int,
            ),
            final(moved_givtbl)@ == old(moved_givtbl)@,
    {
        Self::collect_object_roots_in(
            gc_tls,
            heap,
            moved_givtbl,
            factory,
            root_set,
            pinned_roots,
            visits,
            OBJECT_BUFFER_SIZE,
        )
    }

    /// Scan one object's references and trace each referent through the
    /// engine, forwarding it to its post-move address. The runtime's
    /// enumeration of the object's references arrives as `children`; the
    /// returned references are what the runtime stores back into the
    /// object's slots.
    pub fn scan_object_and_trace_edges(
        gc_tls: &mut GCThreadTLS,
        heap: &mut Heap,
        moved_givtbl: &mut MovedGivTbl,
        object: ObjectReference,
        children: &Vec<(ObjectReference, bool)>,
    ) -> (r: Vec<ObjectReference>)
        requires
            old(gc_tls).object_closure is Unregistered,
            old(heap).wf(),
            old(heap)@.contains_key(object.addr),
            trace_visits_ok(*old(heap), *old(moved_givtbl), children@),
        ensures
            final(gc_tls).object_closure is Unregistered,
            final(gc_tls).kind == old(gc_tls).kind,
            final(gc_tls).gc_context == old(gc_tls).gc_context,
            trace_effect(*old(heap), *final(heap)),
            final(moved_givtbl).wf(),
            r@.len() == children@.len(),
            forall|k: int| 0 <= k < r@.len()
                ==> final(heap).spec_trace_settled(#[trigger] r@[k]),
            // Each reference is answered as the entry heap dictates: a
            // referent forwarded before this scan is answered with its
            // published target, and a pinned or already-settled referent is
            // answered with itself — its address is unchanged by the trace.
            forall|k: int| 0 <= k < children@.len()
                ==> visit_answer_fixed(*old(heap), children@[k].0, #[trigger] r@[k]),
            trace_growth_bounded(*old(heap), *final(heap), children@),
            all_settled(*old(heap), children@) ==> {
                &&& final(heap)@ == old(heap)@
                &&& final(heap).spec_copy_log() == old(heap).spec_copy_log()
                &&& final(moved_givtbl)@ == old(moved_givtbl)@
                &&& r@ == objs_of(children@)
            },
    {
        // The source object is a managed object; its referents are handed to
        // the installed tracer one by one.
        let _ = heap.is_mmtk_object(object.addr);
        let (v, results) = gc_tls.object_closure.set_temporarily_and_run_code(
            Visitor::TraceChildren,
            heap,
            moved_givtbl,
            children,
        );
        match v {
            Visitor::TraceChildren => results,
            _ => {
                proof {
                    assert(false);
                }
                results
            },
        }
    }
}

} // verus!
