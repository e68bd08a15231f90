//! Process-wide binding state shared between the runtime and the collector.
//!
//! The moved-table registry records, for every object copied this cycle that
//! owned a runtime-side auxiliary instance-variable table, where the object
//! now lives and which table must be relocated with it. The runtime consumes
//! and clears it after the cycle.

use vstd::prelude::*;
use crate::ObjectReference;
use crate::ppp::PPPRegistry;
use crate::weak_proc::WeakProcessor;

verus! {

/// Entry recorded when an object carrying an auxiliary table is copied,
/// keyed by the object's new (post-move) reference.
#[derive(Clone, Copy, PartialEq, Eq, Structural, Debug)]
pub struct MovedGIVTblEntry {
    /// The object's reference before the move.
    pub old_objref: ObjectReference,
    /// Runtime-owned handle of the auxiliary table to relocate.
    pub gen_ivtbl: usize,
}

/// The side table of moved auxiliary-table entries, keyed by new reference.
pub struct MovedGivTbl {
    entries: Vec<(ObjectReference, MovedGIVTblEntry)>,
}

impl View for MovedGivTbl {
    type V = Seq<(ObjectReference, MovedGIVTblEntry)>;

    closed spec fn view(&self) -> Seq<(ObjectReference, MovedGIVTblEntry)> {
        self.entries@
    }
}

impl MovedGivTbl {
    /// Whether an entry is keyed by `key`.
    pub open spec fn spec_contains_key(self, key: ObjectReference) -> bool {
        exists|i: int| 0 <= i < self@.len() && self@[i].0 == key
    }

    /// Keys are pairwise distinct.
    pub open spec fn wf(self) -> bool {
        forall|i: int, j: int|
            0 <= i < self@.len() && 0 <= j < self@.len() && i != j
                ==> self@[i].0 != self@[j].0
    }

    pub fn new() -> (r: MovedGivTbl)
        ensures
            r.wf(),
            r@ == Seq::<(ObjectReference, MovedGIVTblEntry)>::empty(),
    {
        MovedGivTbl { entries: Vec::new() }
    }

    pub fn len(&self) -> (r: usize)
        ensures
            r == self@.len(),
    {
        self.entries.len()
    }

    /// Record that the object now at `key` moved from `entry.old_objref`
    /// and carries the table `entry.gen_ivtbl`.
    pub fn insert(&mut self, key: ObjectReference, entry: MovedGIVTblEntry)
        requires
            old(self).wf(),
            !old(self).spec_contains_key(key),
        ensures
            final(self).wf(),
            final(self)@ == old(self)@.push((key, entry)),
    {
        proof {
            assert forall|i: int| 0 <= i < self@.len() implies (#[trigger] self@[i]).0 != key by {
                if self@[i].0 == key {
                    assert(self.spec_contains_key(key));
                }
            }
        }
        self.entries.push((key, entry));
        proof {
            assert forall|i: int, j: int|
                0 <= i < self@.len() && 0 <= j < self@.len() && i != j
                implies (#[trigger] self@[i]).0 != (#[trigger] self@[j]).0 by {
                if i < old(self)@.len() && j < old(self)@.len() {
                    assert(old(self)@[i].0 != old(self)@[j].0);
                }
            }
        }
    }

    /// Read one entry by position.
    pub fn entry_at(&self, i: usize) -> (r: (ObjectReference, MovedGIVTblEntry))
        requires
            i < self@.len(),
        ensures
            r == self@[i as int],
    {
        self.entries[i]
    }

    /// Look up the entry for the object now at `key`.
    pub fn get(&self, key: ObjectReference) -> (r: Option<MovedGIVTblEntry>)
        requires
            self.wf(),
        ensures
            match r {
                Some(e) => exists|i: int| 0 <= i < self@.len() && self@[i] == (key, e),
                None => !self.spec_contains_key(key),
            },
    {
        let n = self.entries.len();
        let mut i: usize = 0;
        while i < n
            invariant
                n == self@.len(),
                i <= n,
                forall|k: int| 0 <= k < i ==> self@[k].0 != key,
            decreases n - i,
        {
            if self.entries[i].0 == key {
                return Some(self.entries[i].1);
            }
            i += 1;
        }
        None
    }

    /// Hand the whole table to the runtime and clear it, as happens when the
    /// runtime consumes the moved entries after a cycle.
    pub fn take_all(&mut self) -> (r: Vec<(ObjectReference, MovedGIVTblEntry)>)
        requires
            old(self).wf(),
        ensures
            final(self).wf(),
            r@ == old(self)@,
            final(self)@ == Seq::<(ObjectReference, MovedGIVTblEntry)>::empty(),
    {
        let mut out: Vec<(ObjectReference, MovedGIVTblEntry)> = Vec::new();
        std::mem::swap(&mut out, &mut self.entries);
        out
    }
}

/// The process-wide state the binding owns: the registries the runtime and
/// collector share, and the per-cycle scratch sets. Created once when the
/// heap is initialized and alive for the process's lifetime; in the running
/// system each registry sits behind its own lock, and during stop-the-world
/// the protocol makes every access here single-threaded.
pub struct RubyBinding {
    pub ppp_registry: PPPRegistry,
    pub weak_proc: WeakProcessor,
    pub moved_givtbl: MovedGivTbl,
    /// Per-cycle snapshot of every recorded root, used only for post-trace
    /// consistency checking.
    pub root_set: Vec<ObjectReference>,
    /// Roots pinned this cycle, to unpin before mutators resume.
    pub pinned_roots: Vec<ObjectReference>,
    /// Pinning-parent referents pinned this cycle.
    pub pinned_ppps: Vec<ObjectReference>,
    /// Identifiers of the live collector threads.
    pub gc_threads: Vec<u64>,
}

impl RubyBinding {
    pub fn new() -> (r: RubyBinding)
        ensures
            r.ppp_registry@ == Seq::<ObjectReference>::empty(),
            r.weak_proc@ == Seq::<ObjectReference>::empty(),
            r.moved_givtbl@ == Seq::<(ObjectReference, MovedGIVTblEntry)>::empty(),
            r.moved_givtbl.wf(),
            r.root_set@ == Seq::<ObjectReference>::empty(),
            r.pinned_roots@ == Seq::<ObjectReference>::empty(),
            r.pinned_ppps@ == Seq::<ObjectReference>::empty(),
            r.gc_threads@ == Seq::<u64>::empty(),
    {
        RubyBinding {
            ppp_registry: PPPRegistry::new(),
            weak_proc: WeakProcessor::new(),
            moved_givtbl: MovedGivTbl::new(),
            root_set: Vec::new(),
            pinned_roots: Vec::new(),
            pinned_ppps: Vec::new(),
            gc_threads: Vec::new(),
        }
    }

    /// Record a newly spawned collector thread.
    pub fn register_gc_thread(&mut self, thread_id: u64)
        ensures
            final(self).gc_threads@ == old(self).gc_threads@.push(thread_id),
            final(self).ppp_registry@ == old(self).ppp_registry@,
            final(self).weak_proc@ == old(self).weak_proc@,
            final(self).moved_givtbl@ == old(self).moved_givtbl@,
            final(self).root_set@ == old(self).root_set@,
            final(self).pinned_roots@ == old(self).pinned_roots@,
            final(self).pinned_ppps@ == old(self).pinned_ppps@,
    {
        self.gc_threads.push(thread_id);
    }

    /// Drop a collector thread's record as it exits.
    pub fn unregister_gc_thread(&mut self, thread_id: u64)
        ensures
            final(self).ppp_registry@ == old(self).ppp_registry@,
            final(self).weak_proc@ == old(self).weak_proc@,
            final(self).moved_givtbl@ == old(self).moved_givtbl@,
            final(self).root_set@ == old(self).root_set@,
            final(self).pinned_roots@ == old(self).pinned_roots@,
            final(self).pinned_ppps@ == old(self).pinned_ppps@,
            old(self).gc_threads@.contains(thread_id) ==> exists|i: int|
                0 <= i < old(self).gc_threads@.len()
                    && old(self).gc_threads@[i] == thread_id
                    && final(self).gc_threads@ == old(self).gc_threads@.remove(i),
            !old(self).gc_threads@.contains(thread_id)
                ==> final(self).gc_threads@ == old(self).gc_threads@,
    {
        let n = self.gc_threads.len();
        let mut i: usize = 0;
        while i < n
            invariant
                n == self.gc_threads@.len(),
                i <= n,
                self.gc_threads@ == old(self).gc_threads@,
                self.ppp_registry@ == old(self).ppp_registry@,
                self.weak_proc@ == old(self).weak_proc@,
                self.moved_givtbl@ == old(self).moved_givtbl@,
                self.root_set@ == old(self).root_set@,
                self.pinned_roots@ == old(self).pinned_roots@,
                self.pinned_ppps@ == old(self).pinned_ppps@,
                forall|k: int| 0 <= k < i ==> self.gc_threads@[k] != thread_id,
            decreases n - i,
        {
            if self.gc_threads[i] == thread_id {
                self.gc_threads.remove(i);
                return ;
            }
            i += 1;
        }
        proof {
            assert(!old(self).gc_threads@.contains(thread_id));
        }
    }
}

} // verus!
