//! Model of the collector engine's view of the managed object space.
//!
//! The collector engine owns the heap proper; this binding only observes it
//! through a fixed set of entry points (pinning, liveness queries, copying
//! allocation, tracing). This module models that visible state explicitly:
//! each managed object carries its per-cycle metadata (forwarding state,
//! pin bit, mark bit) and the two payload words the binding reads and
//! rewrites (the `flags` header word and a summary of the remaining bytes).

use vstd::prelude::*;
use crate::ObjectReference;
use crate::binding::{MovedGivTbl, MovedGIVTblEntry};
use crate::object_model::VMObjectModel;

verus! {

/// Offset, in bytes, from an object's start address to the address its
/// `ObjectReference` designates. The prepended word holds the object size
/// during normal execution and is overwritten by the forwarding pointer.
pub const OBJREF_OFFSET: usize = 8;

/// Minimum alignment of a managed object, even on 32-bit machines.
pub const MIN_OBJ_ALIGN: usize = 8;

/// The three-state per-object forwarding protocol. Exactly one collector
/// thread wins the transition out of `NotForwarded`; losers wait until the
/// winner publishes `Forwarded` and then read the same target.
#[derive(Clone, Copy, PartialEq, Eq, Structural, Debug)]
pub enum ForwardingState {
    NotForwarded,
    BeingForwarded,
    Forwarded { to: ObjectReference },
}

/// One managed object as the collector sees it: its address, the two
/// payload words the binding touches, its size, and its per-cycle bits.
#[derive(Clone, Copy, PartialEq, Eq, Structural, Debug)]
pub struct HeapObject {
    /// Address of the collector-visible header; equal to its key in the heap.
    pub addr: usize,
    /// First payload word: the runtime's `flags` word. The generic forwarding
    /// mechanism overwrites it; copying must reconstruct it in the new copy.
    pub flags: usize,
    /// Summary of the remaining payload bytes of the copyable range.
    pub payload: usize,
    /// Size in bytes of the copyable byte range.
    pub size: usize,
    /// Forwarding protocol state.
    pub fwd: ForwardingState,
    /// Pin bit: a pinned object is ineligible for relocation this cycle.
    pub pinned: bool,
    /// Mark bit: set once the trace has reached this object this cycle.
    pub reached: bool,
    /// Whether the runtime attached an auxiliary instance-variable table
    /// that must be relocated alongside the object.
    pub has_givtbl: bool,
    /// Runtime-owned handle of that auxiliary table (meaningful only when
    /// `has_givtbl` is set).
    pub givtbl: usize,
    /// Set on a new copy whose source owned an auxiliary table.
    pub has_moved_givtbl: bool,
    /// Collection-policy input: whether tracing relocates this object this
    /// cycle (it lives in a space the engine evacuates).
    pub moves_when_traced: bool,
}

/// Record of one completed copy: payload bytes of `from` now exist at `to`.
#[derive(Clone, Copy, PartialEq, Eq, Structural, Debug)]
pub struct CopyRecord {
    pub from: ObjectReference,
    pub to: ObjectReference,
}

/// The collector-visible object space.
pub struct Heap {
    pub(crate) objects: Vec<HeapObject>,
    /// Next fresh address handed out for a to-space allocation.
    pub(crate) next_alloc: usize,
    /// Log of completed copies this cycle, in order.
    pub(crate) copy_log: Vec<CopyRecord>,
}

/// Bytes one copying allocation consumes: the object's byte range plus its
/// prepended word, rounded up to the minimum object alignment, so every
/// handed-out address stays aligned.
pub open spec fn spec_alloc_step(size: int) -> int {
    ((size + (OBJREF_OFFSET as int) + (MIN_OBJ_ALIGN as int) - 1) / (MIN_OBJ_ALIGN as int))
        * (MIN_OBJ_ALIGN as int)
}

/// The allocation step covers the byte range and its prepended word, is a
/// positive multiple of the minimum alignment, and overshoots by less than
/// one alignment unit.
pub proof fn lemma_alloc_step(size: int)
    requires
        size >= 0,
    ensures
        spec_alloc_step(size) % (MIN_OBJ_ALIGN as int) == 0,
        spec_alloc_step(size) >= size + OBJREF_OFFSET,
        spec_alloc_step(size) < size + OBJREF_OFFSET + MIN_OBJ_ALIGN,
{
    let m = MIN_OBJ_ALIGN as int;
    let padded = size + (OBJREF_OFFSET as int) + m - 1;
    vstd::arithmetic::div_mod::lemma_fundamental_div_mod(padded, m);
    vstd::arithmetic::div_mod::lemma_mod_multiples_basic(padded / m, m);
    vstd::arithmetic::div_mod::lemma_mod_bound(padded, m);
}

/// Whether some object in `s` has address `a`.
pub open spec fn contains_addr(s: Seq<HeapObject>, a: usize) -> bool {
    exists|i: int| 0 <= i < s.len() && s[i].addr == a
}

/// Index of the object with address `a` in `s` (meaningful when
/// `contains_addr(s, a)` holds and addresses are distinct).
pub open spec fn index_of_addr(s: Seq<HeapObject>, a: usize) -> int {
    choose|i: int| 0 <= i < s.len() && s[i].addr == a
}

/// The object sequence read as a map from address to object.
pub open spec fn map_of(s: Seq<HeapObject>) -> Map<usize, HeapObject> {
    Map::new(
        |a: usize| contains_addr(s, a),
        |a: usize| s[index_of_addr(s, a)],
    )
}

/// Addresses in `s` are pairwise distinct.
pub open spec fn distinct_addrs(s: Seq<HeapObject>) -> bool {
    forall|i: int, j: int|
        0 <= i < s.len() && 0 <= j < s.len() && i != j ==> s[i].addr != s[j].addr
}

/// Replacing the object at index `i` without changing its address updates
/// exactly that address's entry in the map reading.
proof fn lemma_map_of_update(s: Seq<HeapObject>, i: int, obj: HeapObject)
    requires
        distinct_addrs(s),
        0 <= i < s.len(),
        obj.addr == s[i].addr,
    ensures
        map_of(s.update(i, obj)) == map_of(s).insert(obj.addr, obj),
{
    let s2 = s.update(i, obj);
    assert(distinct_addrs(s2));
    assert forall|a: usize| contains_addr(s2, a) <==> contains_addr(s, a) by {
        if contains_addr(s2, a) {
            let k = choose|k: int| 0 <= k < s2.len() && s2[k].addr == a;
            assert(s[k].addr == a || k == i);
            assert(contains_addr(s, a));
        }
        if contains_addr(s, a) {
            let k = choose|k: int| 0 <= k < s.len() && s[k].addr == a;
            assert(s2[k].addr == a);
            assert(contains_addr(s2, a));
        }
    }
    assert forall|a: usize| #[trigger] contains_addr(s2, a)
        implies map_of(s2)[a] == map_of(s).insert(obj.addr, obj)[a] by {
        let k2 = index_of_addr(s2, a);
        assert(0 <= k2 < s2.len() && s2[k2].addr == a);
        if a == obj.addr {
            assert(k2 == i);
        } else {
            assert(k2 != i);
            let k1 = index_of_addr(s, a);
            assert(0 <= k1 < s.len() && s[k1].addr == a);
            assert(k1 == k2);
        }
    }
    assert(map_of(s2) =~= map_of(s).insert(obj.addr, obj));
}

/// Appending an object with a fresh address adds exactly that entry.
proof fn lemma_map_of_push(s: Seq<HeapObject>, obj: HeapObject)
    requires
        distinct_addrs(s),
        !contains_addr(s, obj.addr),
    ensures
        map_of(s.push(obj)) == map_of(s).insert(obj.addr, obj),
{
    let s2 = s.push(obj);
    assert(distinct_addrs(s2));
    assert forall|a: usize| contains_addr(s2, a) <==> (contains_addr(s, a) || a == obj.addr) by {
        if contains_addr(s2, a) {
            let k = choose|k: int| 0 <= k < s2.len() && s2[k].addr == a;
            assert(k == s.len() || s[k].addr == a);
        }
        if contains_addr(s, a) {
            let k = choose|k: int| 0 <= k < s.len() && s[k].addr == a;
            assert(s2[k].addr == a);
        }
        if a == obj.addr {
            assert(s2[s.len() as int].addr == a);
        }
    }
    assert forall|a: usize| #[trigger] contains_addr(s2, a)
        implies map_of(s2)[a] == map_of(s).insert(obj.addr, obj)[a] by {
        let k2 = index_of_addr(s2, a);
        assert(0 <= k2 < s2.len() && s2[k2].addr == a);
        if a == obj.addr {
            assert(k2 == s.len());
        } else {
            assert(k2 < s.len());
            let k1 = index_of_addr(s, a);
            assert(0 <= k1 < s.len() && s[k1].addr == a);
            assert(k1 == k2);
        }
    }
    assert(map_of(s2) =~= map_of(s).insert(obj.addr, obj));
}

/// The objects that survive into the next cycle: everything except the
/// evacuated from-space originals (the objects left forwarded), with mark
/// bits cleared.
pub open spec fn next_cycle_objs(s: Seq<HeapObject>) -> Seq<HeapObject>
    decreases s.len(),
{
    if s.len() == 0 {
        Seq::empty()
    } else {
        let rest = next_cycle_objs(s.drop_last());
        if s.last().fwd is NotForwarded {
            rest.push(HeapObject { reached: false, ..s.last() })
        } else {
            rest
        }
    }
}

/// The surviving objects keep distinct addresses, are exactly the
/// unforwarded ones with their marks cleared, and each comes from one
/// original record.
proof fn lemma_next_cycle_map(s: Seq<HeapObject>)
    requires
        distinct_addrs(s),
    ensures
        distinct_addrs(next_cycle_objs(s)),
        forall|a: usize| #[trigger] contains_addr(next_cycle_objs(s), a)
            <==> (contains_addr(s, a) && map_of(s)[a].fwd is NotForwarded),
        forall|a: usize| #[trigger] contains_addr(next_cycle_objs(s), a)
            ==> map_of(next_cycle_objs(s))[a] == (HeapObject {
                reached: false,
                ..map_of(s)[a]
            }),
        forall|k: int| 0 <= k < next_cycle_objs(s).len()
            ==> exists|j: int| 0 <= j < s.len() && s[j].fwd is NotForwarded
                && #[trigger] next_cycle_objs(s)[k] == (HeapObject { reached: false, ..s[j] }),
    decreases s.len(),
{
    if s.len() == 0 {
    } else {
        let dl = s.drop_last();
        let o = s.last();
        lemma_next_cycle_map(dl);
        let ns = next_cycle_objs(s);
        let ndl = next_cycle_objs(dl);
        // A record of the shorter prefix is the same record of the whole.
        assert forall|k: int| 0 <= k < ns.len()
            implies exists|j: int| 0 <= j < s.len() && s[j].fwd is NotForwarded
                && #[trigger] ns[k] == (HeapObject { reached: false, ..s[j] }) by {
            if k < ndl.len() {
                assert(ns[k] == ndl[k]);
                let j = choose|j: int| 0 <= j < dl.len() && dl[j].fwd is NotForwarded
                    && ndl[k] == (HeapObject { reached: false, ..dl[j] });
                assert(s[j] == dl[j]);
            } else {
                assert(o.fwd is NotForwarded);
                assert(ns[k] == (HeapObject { reached: false, ..s[s.len() - 1] }));
            }
        }
        assert(distinct_addrs(ns)) by {
            assert forall|k1: int, k2: int|
                0 <= k1 < ns.len() && 0 <= k2 < ns.len() && k1 != k2
                implies ns[k1].addr != ns[k2].addr by {
                if k1 < ndl.len() && k2 < ndl.len() {
                    assert(ns[k1] == ndl[k1] && ns[k2] == ndl[k2]);
                } else {
                    let k = if k1 < ndl.len() {
                        k1
                    } else {
                        k2
                    };
                    assert(ns[k] == ndl[k]);
                    // The last record's address is fresh among the prefix.
                    let j = choose|j: int| 0 <= j < dl.len() && dl[j].fwd is NotForwarded
                        && ndl[k] == (HeapObject { reached: false, ..dl[j] });
                    assert(s[j].addr != o.addr);
                }
            }
        }
        assert forall|a: usize| #[trigger] contains_addr(ns, a)
            implies contains_addr(s, a) && map_of(s)[a].fwd is NotForwarded by {
            let k = choose|k: int| 0 <= k < ns.len() && ns[k].addr == a;
            let j = choose|j: int| 0 <= j < s.len() && s[j].fwd is NotForwarded
                && ns[k] == (HeapObject { reached: false, ..s[j] });
            assert(s[j].addr == a);
            assert(index_of_addr(s, a) == j);
        }
        assert forall|a: usize| contains_addr(s, a) && map_of(s)[a].fwd is NotForwarded
            implies #[trigger] contains_addr(ns, a) by {
            let j = index_of_addr(s, a);
            assert(0 <= j < s.len() && s[j].addr == a);
            if j == s.len() - 1 {
                assert(ns[ns.len() - 1].addr == a);
            } else {
                assert(dl[j].addr == a);
                assert(index_of_addr(dl, a) == j);
                assert(map_of(dl)[a] == dl[j]);
                assert(contains_addr(ndl, a));
                let k = choose|k: int| 0 <= k < ndl.len() && ndl[k].addr == a;
                assert(ns[k].addr == a);
            }
        }
        assert forall|a: usize| #[trigger] contains_addr(ns, a)
            implies map_of(ns)[a] == (HeapObject { reached: false, ..map_of(s)[a] }) by {
            let k = index_of_addr(ns, a);
            assert(0 <= k < ns.len() && ns[k].addr == a);
            assert(map_of(ns)[a] == ns[k]);
            let j = choose|j: int| 0 <= j < s.len() && s[j].fwd is NotForwarded
                && ns[k] == (HeapObject { reached: false, ..s[j] });
            assert(s[j].addr == a);
            assert(index_of_addr(s, a) == j);
        }
    }
}

impl View for Heap {
    type V = Map<usize, HeapObject>;

    closed spec fn view(&self) -> Map<usize, HeapObject> {
        map_of(self.objects@)
    }
}

impl Heap {
    /// Addresses are distinct, nonzero, aligned below the allocation cursor,
    /// and each object's recorded address is its key.
    pub closed spec fn addrs_wf(self) -> bool {
        &&& (forall|i: int, j: int|
            0 <= i < self.objects@.len() && 0 <= j < self.objects@.len() && i != j
                ==> self.objects@[i].addr != self.objects@[j].addr)
        &&& (forall|i: int| 0 <= i < self.objects@.len()
                ==> OBJREF_OFFSET <= #[trigger] self.objects@[i].addr
                    && self.objects@[i].addr < self.next_alloc
                    && self.objects@[i].addr % MIN_OBJ_ALIGN == 0)
        &&& self.next_alloc >= OBJREF_OFFSET
        &&& self.next_alloc % MIN_OBJ_ALIGN == 0
    }

    /// Every forwarding pointer designates a managed to-space object that is
    /// marked, is not itself scheduled to move, and is nobody else's target.
    pub open spec fn fwd_wf(self) -> bool {
        &&& (forall|a: usize| #[trigger] self@.contains_key(a)
                && self@[a].fwd is Forwarded
                ==> {
                    let t = self@[a].fwd->to;
                    &&& self@.contains_key(t.addr)
                    &&& t.addr != a
                    &&& self@[t.addr].reached
                    &&& !self@[t.addr].moves_when_traced
                    &&& self@[t.addr].fwd is NotForwarded
                })
        &&& (forall|a1: usize, a2: usize|
            self@.contains_key(a1) && self@.contains_key(a2)
                && #[trigger] self@[a1].fwd is Forwarded && #[trigger] self@[a2].fwd is Forwarded
                && self@[a1].fwd->to == self@[a2].fwd->to
                ==> a1 == a2)
    }

    /// The copy log records each completed copy: the source is still in the
    /// forwarding protocol (its winner has not reverted), the destination
    /// holds the source's payload bytes, and no source appears twice.
    pub open spec fn copy_log_wf(self) -> bool {
        &&& (forall|k: int| 0 <= k < self.spec_copy_log().len()
                ==> {
                    let r = #[trigger] self.spec_copy_log()[k];
                    &&& self@.contains_key(r.from.addr)
                    &&& self@.contains_key(r.to.addr)
                    &&& r.from.addr != r.to.addr
                    &&& (self@[r.from.addr].fwd is BeingForwarded
                         || self@[r.from.addr].fwd == (ForwardingState::Forwarded { to: r.to }))
                    &&& self@[r.to.addr].payload == self@[r.from.addr].payload
                    &&& self@[r.to.addr].size == self@[r.from.addr].size
                })
        &&& (forall|k1: int, k2: int|
            0 <= k1 < self.spec_copy_log().len() && 0 <= k2 < self.spec_copy_log().len()
                && #[trigger] self.spec_copy_log()[k1].from == #[trigger] self.spec_copy_log()[k2].from
                ==> k1 == k2)
    }

    /// Well-formedness of the whole model.
    pub open spec fn wf(self) -> bool {
        &&& self.addrs_wf()
        &&& self.fwd_wf()
        &&& self.copy_log_wf()
        &&& (forall|a: usize| #[trigger] self@.contains_key(a) ==> self@[a].addr == a)
    }

    /// The copies completed so far this cycle, in order.
    pub closed spec fn spec_copy_log(self) -> Seq<CopyRecord> {
        self.copy_log@
    }

    /// The allocation cursor: every managed address is below it.
    pub closed spec fn spec_next_alloc(self) -> usize {
        self.next_alloc
    }

    pub fn new() -> (r: Heap)
        ensures
            r.wf(),
            r@ == Map::<usize, HeapObject>::empty(),
            r.spec_copy_log() == Seq::<CopyRecord>::empty(),
    {
        let h = Heap { objects: Vec::new(), next_alloc: OBJREF_OFFSET, copy_log: Vec::new() };
        proof {
            assert(h@ =~= Map::<usize, HeapObject>::empty());
        }
        h
    }

    /// Index of the object with address `a`, if any.
    pub(crate) fn find_index(&self, a: usize) -> (r: Option<usize>)
        requires
            self.addrs_wf(),
        ensures
            match r {
                Some(i) => i < self.objects@.len() && self.objects@[i as int].addr == a
                    && self@.contains_key(a) && i == index_of_addr(self.objects@, a),
                None => !self@.contains_key(a),
            },
    {
        let n = self.objects.len();
        let mut i: usize = 0;
        while i < n
            invariant
                n == self.objects@.len(),
                i <= n,
                forall|k: int| 0 <= k < i ==> self.objects@[k].addr != a,
                self.addrs_wf(),
            decreases n - i,
        {
            if self.objects[i].addr == a {
                proof {
                    assert(contains_addr(self.objects@, a));
                    let j = index_of_addr(self.objects@, a);
                    assert(self.objects@[j].addr == a);
                    assert(j == i);
                }
                return Some(i);
            }
            i += 1;
        }
        proof {
            assert(!contains_addr(self.objects@, a));
        }
        None
    }

    /// Whether `addr` is the address of a managed object.
    ///
    /// This is the "is this address a live managed object" entry point the
    /// binding consumes from the engine for diagnostic checks.
    pub fn is_mmtk_object(&self, addr: usize) -> (r: bool)
        requires
            self.wf(),
        ensures
            r == self@.contains_key(addr),
    {
        self.find_index(addr).is_some()
    }

    /// Read a managed object's record.
    pub fn get_object(&self, object: ObjectReference) -> (r: HeapObject)
        requires
            self.wf(),
            self@.contains_key(object.addr),
        ensures
            r == self@[object.addr],
    {
        let i = self.find_index(object.addr).unwrap();
        self.objects[i]
    }

    /// Replace the object at index `i` with one at the same address.
    pub(crate) fn put_at(&mut self, i: usize, obj: HeapObject)
        requires
            old(self).addrs_wf(),
            i < old(self).objects@.len(),
            obj.addr == old(self).objects@[i as int].addr,
        ensures
            final(self)@ == old(self)@.insert(obj.addr, obj),
            final(self).addrs_wf(),
            final(self).spec_copy_log() == old(self).spec_copy_log(),
            final(self).spec_next_alloc() == old(self).spec_next_alloc(),
    {
        proof {
            lemma_map_of_update(self.objects@, i as int, obj);
        }
        self.objects[i] = obj;
    }

    /// Make a fresh managed object visible to the collector, as the runtime
    /// does when it allocates. Returns `None` only when the model's address
    /// space is exhausted.
    /// Bytes one allocation consumes, or `None` when even computing the
    /// padded size overflows — in which case the allocation itself cannot
    /// fit either.
    fn alloc_step(size: usize) -> (r: Option<usize>)
        ensures
            match r {
                Some(s) => s == spec_alloc_step(size as int),
                None => spec_alloc_step(size as int) > usize::MAX,
            },
    {
        proof {
            lemma_alloc_step(size as int);
        }
        let padded = match size.checked_add(OBJREF_OFFSET + MIN_OBJ_ALIGN - 1) {
            Some(p) => p,
            None => {
                return None;
            },
        };
        Some(padded / MIN_OBJ_ALIGN * MIN_OBJ_ALIGN)
    }

    pub fn add_object(
        &mut self,
        flags: usize,
        payload: usize,
        size: usize,
        has_givtbl: bool,
        givtbl: usize,
        moves_when_traced: bool,
    ) -> (r: Option<ObjectReference>)
        requires
            old(self).wf(),
        ensures
            final(self).wf(),
            final(self).spec_copy_log() == old(self).spec_copy_log(),
            match r {
                Some(o) => {
                    &&& o.addr == old(self).spec_next_alloc()
                    &&& !old(self)@.contains_key(o.addr)
                    &&& final(self)@ == old(self)@.insert(o.addr, HeapObject {
                        addr: o.addr,
                        flags,
                        payload,
                        size,
                        fwd: ForwardingState::NotForwarded,
                        pinned: false,
                        reached: false,
                        has_givtbl,
                        givtbl,
                        has_moved_givtbl: false,
                        moves_when_traced,
                    })
                },
                None => final(self)@ == old(self)@,
            },
            r matches Some(o) ==> o.addr % MIN_OBJ_ALIGN == 0,
            r is None <==> old(self).spec_next_alloc() + spec_alloc_step(size as int)
                > usize::MAX,
    {
        let a = self.next_alloc;
        let step = match Self::alloc_step(size) {
            Some(s) => s,
            None => {
                return None;
            },
        };
        let new_next = match a.checked_add(step) {
            Some(n) => n,
            None => {
                return None;
            },
        };
        let obj = HeapObject {
            addr: a,
            flags,
            payload,
            size,
            fwd: ForwardingState::NotForwarded,
            pinned: false,
            reached: false,
            has_givtbl,
            givtbl,
            has_moved_givtbl: false,
            moves_when_traced,
        };
        proof {
            assert(!contains_addr(self.objects@, a));
            lemma_map_of_push(self.objects@, obj);
        }
        self.objects.push(obj);
        self.next_alloc = new_next;
        Some(ObjectReference { addr: a })
    }

    /// Allocate a to-space copy of `from`'s byte range at a fresh address,
    /// with the flags word reconstructed to `vm_data`, and log the copy.
    /// Returns `None` only when the model's address space is exhausted.
    pub(crate) fn push_copy(&mut self, from: ObjectReference, vm_data: usize) -> (r: Option<
        ObjectReference,
    >)
        requires
            old(self).addrs_wf(),
            old(self)@.contains_key(from.addr),
        ensures
            final(self).addrs_wf(),
            match r {
                Some(to) => {
                    &&& to.addr == old(self).spec_next_alloc()
                    &&& !old(self)@.contains_key(to.addr)
                    &&& final(self)@ == old(self)@.insert(to.addr, HeapObject {
                        addr: to.addr,
                        flags: vm_data,
                        payload: old(self)@[from.addr].payload,
                        size: old(self)@[from.addr].size,
                        fwd: ForwardingState::NotForwarded,
                        pinned: false,
                        reached: false,
                        has_givtbl: old(self)@[from.addr].has_givtbl,
                        givtbl: old(self)@[from.addr].givtbl,
                        has_moved_givtbl: old(self)@[from.addr].has_givtbl,
                        moves_when_traced: false,
                    })
                    &&& final(self).spec_copy_log()
                        == old(self).spec_copy_log().push(CopyRecord { from, to })
                    &&& final(self).spec_next_alloc() == old(self).spec_next_alloc()
                        + spec_alloc_step(old(self)@[from.addr].size as int)
                    &&& to.addr % MIN_OBJ_ALIGN == 0
                },
                None => {
                    &&& final(self)@ == old(self)@
                    &&& final(self).spec_copy_log() == old(self).spec_copy_log()
                    &&& final(self).spec_next_alloc() == old(self).spec_next_alloc()
                },
            },
            r is None <==> old(self).spec_next_alloc() + spec_alloc_step(
                old(self)@[from.addr].size as int,
            ) > usize::MAX,
    {
        let i = self.find_index(from.addr).unwrap();
        let src = self.objects[i];
        let a = self.next_alloc;
        let step = match Self::alloc_step(src.size) {
            Some(s) => s,
            None => {
                return None;
            },
        };
        let new_next = match a.checked_add(step) {
            Some(n) => n,
            None => {
                return None;
            },
        };
        let obj = HeapObject {
            addr: a,
            flags: vm_data,
            payload: src.payload,
            size: src.size,
            fwd: ForwardingState::NotForwarded,
            pinned: false,
            reached: false,
            has_givtbl: src.has_givtbl,
            givtbl: src.givtbl,
            has_moved_givtbl: src.has_givtbl,
            moves_when_traced: false,
        };
        proof {
            assert(!contains_addr(self.objects@, a));
            lemma_map_of_push(self.objects@, obj);
        }
        self.objects.push(obj);
        self.next_alloc = new_next;
        self.copy_log.push(CopyRecord { from, to: ObjectReference { addr: a } });
        Some(ObjectReference { addr: a })
    }

    /// Attempt to pin `object` so it cannot be relocated this cycle.
    /// Idempotent: returns whether this call newly pinned it; pinning an
    /// address that is not a managed object has no effect.
    pub fn pin_object(&mut self, object: ObjectReference) -> (r: bool)
        requires
            old(self).wf(),
        ensures
            final(self).wf(),
            final(self).spec_copy_log() == old(self).spec_copy_log(),
            final(self).spec_next_alloc() == old(self).spec_next_alloc(),
            r == (old(self)@.contains_key(object.addr) && !old(self)@[object.addr].pinned),
            final(self)@ == if old(self)@.contains_key(object.addr) {
                old(self)@.insert(object.addr, HeapObject {
                    pinned: true,
                    ..old(self)@[object.addr]
                })
            } else {
                old(self)@
            },
    {
        match self.find_index(object.addr) {
            None => false,
            Some(i) => {
                let obj = self.objects[i];
                let was_pinned = obj.pinned;
                self.put_at(i, HeapObject { pinned: true, ..obj });
                !was_pinned
            },
        }
    }

    /// Unpin `object`, restoring its eligibility for relocation. Idempotent;
    /// returns whether this call newly unpinned it.
    pub fn unpin_object(&mut self, object: ObjectReference) -> (r: bool)
        requires
            old(self).wf(),
        ensures
            final(self).wf(),
            final(self).spec_copy_log() == old(self).spec_copy_log(),
            final(self).spec_next_alloc() == old(self).spec_next_alloc(),
            r == (old(self)@.contains_key(object.addr) && old(self)@[object.addr].pinned),
            final(self)@ == if old(self)@.contains_key(object.addr) {
                old(self)@.insert(object.addr, HeapObject {
                    pinned: false,
                    ..old(self)@[object.addr]
                })
            } else {
                old(self)@
            },
    {
        match self.find_index(object.addr) {
            None => false,
            Some(i) => {
                let obj = self.objects[i];
                let was_pinned = obj.pinned;
                self.put_at(i, HeapObject { pinned: false, ..obj });
                was_pinned
            },
        }
    }

    /// Mark `object` as reached by the trace, as the engine does when its
    /// transitive closure first visits it.
    pub fn mark_reached(&mut self, object: ObjectReference)
        requires
            old(self).wf(),
            old(self)@.contains_key(object.addr),
        ensures
            final(self).wf(),
            final(self).spec_copy_log() == old(self).spec_copy_log(),
            final(self).spec_next_alloc() == old(self).spec_next_alloc(),
            final(self)@ == old(self)@.insert(object.addr, HeapObject {
                reached: true,
                ..old(self)@[object.addr]
            }),
    {
        let i = self.find_index(object.addr).unwrap();
        let obj = self.objects[i];
        self.put_at(i, HeapObject { reached: true, ..obj });
    }

    /// Whether `object` is live at this point of the cycle: the trace has
    /// reached it, or it has already been forwarded to a new copy.
    pub fn is_live(&self, object: ObjectReference) -> (r: bool)
        requires
            self.wf(),
        ensures
            r == self.spec_is_live(object),
    {
        match self.find_index(object.addr) {
            None => false,
            Some(i) => {
                let obj = self.objects[i];
                obj.reached || matches!(obj.fwd, ForwardingState::Forwarded { .. })
            },
        }
    }

    /// Liveness as a predicate on the model.
    pub open spec fn spec_is_live(self, object: ObjectReference) -> bool {
        self@.contains_key(object.addr)
            && (self@[object.addr].reached || self@[object.addr].fwd is Forwarded)
    }

    /// The engine's prepare phase at the start of a collection: the previous
    /// cycle's state is reset. Mark bits are cleared, the copy log is
    /// emptied, and the evacuated from-space originals — the objects left
    /// forwarded — are released with their space. Pins and everything else
    /// survive unchanged.
    pub fn prepare_new_cycle(&mut self)
        requires
            old(self).wf(),
            old(self).quiescent(),
        ensures
            final(self).wf(),
            final(self).quiescent(),
            final(self).spec_copy_log() == Seq::<CopyRecord>::empty(),
            final(self).spec_next_alloc() == old(self).spec_next_alloc(),
            forall|a: usize| #[trigger] final(self)@.contains_key(a)
                <==> (old(self)@.contains_key(a) && old(self)@[a].fwd is NotForwarded),
            forall|a: usize| #[trigger] final(self)@.contains_key(a)
                ==> final(self)@[a] == (HeapObject { reached: false, ..old(self)@[a] }),
    {
        let n = self.objects.len();
        let mut kept: Vec<HeapObject> = Vec::new();
        let mut i: usize = 0;
        while i < n
            invariant
                n == old(self).objects@.len(),
                self.objects@ == old(self).objects@,
                self.next_alloc == old(self).next_alloc,
                self.copy_log@ == old(self).copy_log@,
                i <= n,
                kept@ == next_cycle_objs(old(self).objects@.take(i as int)),
            decreases n - i,
        {
            let o = self.objects[i];
            proof {
                assert(old(self).objects@.take(i + 1 as int).drop_last()
                    =~= old(self).objects@.take(i as int));
                assert(old(self).objects@.take(i + 1 as int).last() == o);
            }
            if matches!(o.fwd, ForwardingState::NotForwarded) {
                kept.push(HeapObject { reached: false, ..o });
            }
            i += 1;
        }
        proof {
            assert(old(self).objects@.take(n as int) =~= old(self).objects@);
            lemma_next_cycle_map(old(self).objects@);
        }
        self.objects = kept;
        self.copy_log = Vec::new();
        proof {
            assert forall|k: int| 0 <= k < self.objects@.len()
                implies OBJREF_OFFSET <= #[trigger] self.objects@[k].addr
                    && self.objects@[k].addr < self.next_alloc
                    && self.objects@[k].addr % MIN_OBJ_ALIGN == 0 by {
                let j = choose|j: int| 0 <= j < old(self).objects@.len()
                    && old(self).objects@[j].fwd is NotForwarded
                    && self.objects@[k] == (HeapObject {
                    reached: false,
                    ..old(self).objects@[j]
                });
            }
        }
    }

    /// Whether the collector will never relocate `object`: it is not a
    /// managed object, it is pinned, or it lives in a space the engine does
    /// not evacuate this cycle.
    pub fn will_never_move(&self, object: ObjectReference) -> (r: bool)
        requires
            self.wf(),
        ensures
            r == !(self@.contains_key(object.addr) && !self@[object.addr].pinned
                && self@[object.addr].moves_when_traced),
    {
        match self.find_index(object.addr) {
            None => true,
            Some(i) => {
                let o = self.objects[i];
                o.pinned || !o.moves_when_traced
            },
        }
    }

    /// Whether the forwarding protocol has settled everywhere: the
    /// executable form of `quiescent`, letting the embedder check the
    /// stop-the-world entry condition before a cycle.
    pub fn check_quiescent(&self) -> (r: bool)
        requires
            self.wf(),
        ensures
            r == self.quiescent(),
    {
        let n = self.objects.len();
        let mut i: usize = 0;
        while i < n
            invariant
                self.wf(),
                n == self.objects@.len(),
                i <= n,
                forall|k: int| 0 <= k < i
                    ==> !((#[trigger] self.objects@[k]).fwd is BeingForwarded),
            decreases n - i,
        {
            if matches!(self.objects[i].fwd, ForwardingState::BeingForwarded) {
                proof {
                    let a = self.objects@[i as int].addr;
                    assert(contains_addr(self.objects@, a));
                    let k = index_of_addr(self.objects@, a);
                    assert(0 <= k < self.objects@.len() && self.objects@[k].addr == a);
                    assert(k == i);
                    assert(self@.contains_key(a));
                    assert(self@[a].fwd is BeingForwarded);
                }
                return false;
            }
            i += 1;
        }
        proof {
            assert forall|a: usize| #[trigger] self@.contains_key(a)
                implies !(self@[a].fwd is BeingForwarded) by {
                let k = index_of_addr(self.objects@, a);
                assert(0 <= k < self.objects@.len() && self.objects@[k].addr == a);
            }
        }
        true
    }

    /// Whether `object` is reachable; during the weak sweep this coincides
    /// with liveness.
    pub fn is_reachable(&self, object: ObjectReference) -> (r: bool)
        requires
            self.wf(),
        ensures
            r == self.spec_is_live(object),
    {
        self.is_live(object)
    }

    /// No object is mid-forwarding: the protocol has settled everywhere.
    /// Holds whenever no collector thread is inside the forwarding protocol,
    /// in particular at every point the weak sweep or a root scan observes.
    pub open spec fn quiescent(self) -> bool {
        forall|a: usize| #[trigger] self@.contains_key(a)
            ==> !(self@[a].fwd is BeingForwarded)
    }

    /// The object `trace_object` produced for `object`: its published copy
    /// if it was relocated, otherwise the object itself, marked reached.
    pub open spec fn spec_trace_settled(self, r: ObjectReference) -> bool {
        &&& self@.contains_key(r.addr)
        &&& self@[r.addr].reached
        &&& self@[r.addr].fwd is NotForwarded
    }

    /// Everything one tracer visit guarantees, over the states before and
    /// after it: the three outcomes of `trace_object`. Already forwarded:
    /// the published copy is returned and nothing changes. Kept in place
    /// (returned unchanged): the object is pinned, already reached,
    /// non-moving, or copying allocation is exhausted, and only its mark bit
    /// is set. Relocated: a fresh, marked copy is created, logged, published
    /// as the forwarding target, and recorded in the moved table when the
    /// source carried an auxiliary table.
    pub open spec fn trace_object_post(
        pre: Heap,
        post: Heap,
        pre_moved: Seq<(ObjectReference, MovedGIVTblEntry)>,
        post_moved: Seq<(ObjectReference, MovedGIVTblEntry)>,
        object: ObjectReference,
        r: ObjectReference,
    ) -> bool {
        let o = pre@[object.addr];
        if o.fwd is Forwarded {
            &&& r == o.fwd->to
            &&& post@ == pre@
            &&& post_moved == pre_moved
            &&& post.spec_copy_log() == pre.spec_copy_log()
            &&& post.spec_next_alloc() == pre.spec_next_alloc()
        } else if r == object {
            &&& post@ == pre@.insert(object.addr, HeapObject { reached: true, ..o })
            &&& post_moved == pre_moved
            &&& post.spec_copy_log() == pre.spec_copy_log()
            &&& post.spec_next_alloc() == pre.spec_next_alloc()
            &&& (o.pinned || o.reached || !o.moves_when_traced
                || pre.spec_next_alloc() + spec_alloc_step(o.size as int) > usize::MAX)
        } else {
            &&& !o.pinned && !o.reached && o.moves_when_traced
            &&& !pre@.contains_key(r.addr)
            &&& post@ == pre@.insert(r.addr, HeapObject {
                addr: r.addr,
                flags: o.flags,
                payload: o.payload,
                size: o.size,
                fwd: ForwardingState::NotForwarded,
                pinned: false,
                reached: true,
                has_givtbl: o.has_givtbl,
                givtbl: o.givtbl,
                has_moved_givtbl: o.has_givtbl,
                moves_when_traced: false,
            }).insert(object.addr, HeapObject { fwd: ForwardingState::Forwarded { to: r }, ..o })
            &&& post.spec_copy_log() == pre.spec_copy_log().push(
                CopyRecord { from: object, to: r },
            )
            &&& post_moved == if o.has_givtbl {
                pre_moved.push((r, MovedGIVTblEntry { old_objref: object, gen_ivtbl: o.givtbl }))
            } else {
                pre_moved
            }
        }
    }

    /// The engine's tracer visits `object`: if it has already been
    /// forwarded, its published copy is returned; if it is pinned, already
    /// reached, or lives in a space the engine does not evacuate, it is
    /// marked reached and kept in place; otherwise the engine wins the
    /// forwarding protocol for it, copies it, and publishes the copy. When
    /// copying allocation is exhausted the attempt is reverted and the
    /// object is kept in place.
    pub fn trace_object(
        &mut self,
        moved_givtbl: &mut MovedGivTbl,
        object: ObjectReference,
    ) -> (r: ObjectReference)
        requires
            old(self).wf(),
            old(self)@.contains_key(object.addr),
            !(old(self)@[object.addr].fwd is BeingForwarded),
            old(moved_givtbl).wf(),
            forall|i: int| 0 <= i < old(moved_givtbl)@.len()
                ==> old(self)@.contains_key(#[trigger] old(moved_givtbl)@[i].0.addr),
        ensures
            final(self).wf(),
            final(moved_givtbl).wf(),
            forall|i: int| 0 <= i < final(moved_givtbl)@.len()
                ==> final(self)@.contains_key(#[trigger] final(moved_givtbl)@[i].0.addr),
            final(self).spec_trace_settled(r),
            old(self).quiescent() ==> final(self).quiescent(),
            // A pinned object is never moved: its address is unchanged and
            // only its mark bit may be set.
            old(self)@[object.addr].pinned && !(old(self)@[object.addr].fwd is Forwarded)
                ==> r == object,
            Heap::trace_object_post(
                *old(self),
                *final(self),
                old(moved_givtbl)@,
                final(moved_givtbl)@,
                object,
                r,
            ),
    {
        let o = self.get_object(object);
        match o.fwd {
            ForwardingState::Forwarded { to } => to,
            _ => {
                if o.pinned || o.reached || !o.moves_when_traced {
                    self.mark_reached(object);
                    object
                } else {
                    proof {
                        assert forall|a: usize| #[trigger] self@.contains_key(a)
                            implies self@[a].fwd != (ForwardingState::Forwarded {
                            to: object,
                        }) by {
                            if self@[a].fwd == (ForwardingState::Forwarded { to: object }) {
                                assert(self@[object.addr].reached);
                            }
                        }
                    }
                    let vm_data = match VMObjectModel::attempt_to_forward(self, object) {
                        Some(v) => v,
                        None => {
                            proof {
                                assert(false);
                            }
                            0
                        },
                    };
                    proof {
                        assert forall|k: int| 0 <= k < self.spec_copy_log().len()
                            implies #[trigger] self.spec_copy_log()[k].from != object by {
                            if self.spec_copy_log()[k].from == object {
                                assert(old(self).spec_copy_log()[k].from == object);
                                assert(old(self)@[object.addr].fwd is BeingForwarded
                                    || old(self)@[object.addr].fwd is Forwarded);
                            }
                        }
                    }
                    match VMObjectModel::copy(self, moved_givtbl, object, vm_data) {
                        None => {
                            VMObjectModel::revert_forwarding_state(self, object, vm_data);
                            self.mark_reached(object);
                            proof {
                                assert(self@ =~= old(self)@.insert(object.addr, HeapObject {
                                    reached: true,
                                    ..old(self)@[object.addr]
                                }));
                            }
                            object
                        },
                        Some(to) => {
                            self.mark_reached(to);
                            proof {
                                assert forall|a: usize| #[trigger] self@.contains_key(a)
                                    implies self@[a].fwd != (ForwardingState::Forwarded {
                                    to,
                                }) by {
                                    if self@[a].fwd == (ForwardingState::Forwarded { to }) {
                                        assert(self@.contains_key(to.addr));
                                        assert(a != to.addr && a != object.addr);
                                        assert(old(self)@.contains_key(a));
                                        assert(old(self)@.contains_key(to.addr));
                                    }
                                }
                            }
                            VMObjectModel::write_forwarding_state_and_forwarding_pointer(
                                self,
                                object,
                                to,
                            );
                            proof {
                                let o = old(self)@[object.addr];
                                assert(self@ =~= old(self)@.insert(to.addr, HeapObject {
                                    addr: to.addr,
                                    flags: o.flags,
                                    payload: o.payload,
                                    size: o.size,
                                    fwd: ForwardingState::NotForwarded,
                                    pinned: false,
                                    reached: true,
                                    has_givtbl: o.has_givtbl,
                                    givtbl: o.givtbl,
                                    has_moved_givtbl: o.has_givtbl,
                                    moves_when_traced: false,
                                }).insert(object.addr, HeapObject {
                                    fwd: ForwardingState::Forwarded { to },
                                    ..o
                                }));
                            }
                            to
                        },
                    }
                }
            },
        }
    }

    /// The forwarded copy of `object`, if the forwarding protocol has
    /// completed for it this cycle.
    pub fn get_forwarded_object(&self, object: ObjectReference) -> (r: Option<ObjectReference>)
        requires
            self.wf(),
        ensures
            match r {
                Some(t) => self@.contains_key(object.addr)
                    && self@[object.addr].fwd == (ForwardingState::Forwarded { to: t }),
                None => !self@.contains_key(object.addr)
                    || !(self@[object.addr].fwd is Forwarded),
            },
    {
        match self.find_index(object.addr) {
            None => None,
            Some(i) => {
                match self.objects[i].fwd {
                    ForwardingState::Forwarded { to } => Some(to),
                    _ => None,
                }
            },
        }
    }
}

} // verus!
